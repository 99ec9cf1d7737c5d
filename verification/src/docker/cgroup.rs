//! CPU burst through control groups.
use vstd::prelude::*;
use crate::error::{AppError, AppResult};
use crate::paths;
use crate::text;

verus! {

/// The burst allowance for a quota: the configured share of it, at most all.
pub open spec fn burst(quota: int, percent: int) -> int {
    if quota <= 0 || percent <= 0 {
        0
    } else if percent > 100 {
        quota
    } else {
        quota * percent / 100
    }
}

/// Burst allowance in microseconds for a quota and a configured percentage.
pub fn cpu_burst_microseconds(quota: i64, percent: i64) -> (r: i64)
    ensures
        r == burst(quota as int, percent as int),
        0 <= r,
        quota >= 0 ==> r <= quota,
{
    if quota <= 0 || percent <= 0 {
        return 0;
    }
    if percent > 100 {
        return quota;
    }
    assert(0 <= quota * percent <= quota * 100) by (nonlinear_arith)
        requires
            0 < quota,
            0 < percent <= 100,
    ;
    let product: i128 = quota as i128 * percent as i128;
    (product / 100) as i64
}

/// The burst to be written into a container's control group, if any: bursting
/// is enabled and the container has a quota.
pub fn burst_to_set(quota: i64, enabled: bool, percent: i64) -> (r: Option<i64>)
    ensures
        r == (if enabled && quota > 0 {
            Some(burst(quota as int, percent as int) as i64)
        } else {
            None
        }),
{
    if !enabled || quota <= 0 {
        None
    } else {
        Some(cpu_burst_microseconds(quota, percent))
    }
}

/// A line of a control group listing, `hierarchy:controllers:path`: the
/// positions of its first two colons, if it has them.
pub open spec fn colons(line: Seq<char>) -> (int, int) {
    let a = text::first(line, ':');
    (a, a + 1 + text::first(line.skip(a + 1), ':'))
}

/// The path in a line, when the line is the one looked for: the unified
/// hierarchy (`0::path`), or one that has the `cpu` controller. A path that is
/// not absolute or climbs is passed over.
pub open spec fn line_path(line: Seq<char>, v2: bool) -> Option<Seq<char>> {
    let (a, b) = colons(line);
    if a < line.len() && b < line.len() {
        let hierarchy = line.take(a);
        let controllers = line.subrange(a + 1, b);
        let path = line.skip(b + 1);
        if path.len() > 0 && path[0] == '/' && text::find(path, ".."@) < 0 && (if v2 {
            hierarchy == "0"@ && controllers.len() == 0
        } else {
            text::split_on(controllers, ',').contains("cpu"@)
        }) {
            Some(path)
        } else {
            None
        }
    } else {
        None
    }
}

/// The file of a control group that holds its burst.
pub open spec fn burst_file(path: Seq<char>, v2: bool) -> Seq<char> {
    let rel = text::trim_start_of(path, '/');
    if v2 {
        paths::join(paths::join("/sys/fs/cgroup"@, rel), "cpu.max.burst"@)
    } else {
        paths::join(paths::join("/sys/fs/cgroup/cpu"@, rel), "cpu.cfs_burst_us"@)
    }
}

/// The burst file of the first line that has one.
pub open spec fn find_burst_file(lines: Seq<Seq<char>>, v2: bool) -> Option<Seq<char>>
    decreases lines.len(),
{
    if lines.len() == 0 {
        None
    } else {
        match line_path(lines[0], v2) {
            Some(p) => Some(burst_file(p, v2)),
            None => find_burst_file(lines.skip(1), v2),
        }
    }
}

/// The path in a line, when the line is the one looked for.
fn read_line(line: &Vec<char>, v2: bool) -> (r: Option<String>)
    ensures
        match r {
            Some(p) => line_path(line@, v2) == Some(p@),
            None => line_path(line@, v2) is None,
        },
{
    let s = line.as_slice();
    assert(line@.skip(0) =~= line@);
    let a: usize = text::find_from(s, 0, ':');
    if a == s.len() {
        return None;
    }
    let b: usize = text::find_from(s, a + 1, ':');
    if b == s.len() {
        return None;
    }
    let hierarchy = text::slice_of(s, 0, a);
    let controllers = text::slice_of(s, a + 1, b);
    let path = text::slice_of(s, b + 1, s.len());
    assert(hierarchy@ =~= line@.take(a as int));
    assert(path@ =~= line@.skip(b + 1));
    let p = text::string_of(path.as_slice());
    if path.len() == 0 || path[0] != '/' || text::contains(p.as_str(), "..") {
        return None;
    }
    if v2 {
        let h = text::string_of(hierarchy.as_slice());
        if text::same(h.as_str(), "0") && controllers.len() == 0 {
            return Some(p);
        }
        return None;
    }
    let c = text::string_of(controllers.as_slice());
    let list = text::split_str(c.as_str(), ',');
    if text::has_text(&list, "cpu") {
        Some(p)
    } else {
        None
    }
}

/// The burst file of a process, from its control group listing.
pub fn resolve_cgroup_cpu_file(proc_cgroup: &str, v2: bool) -> (r: AppResult<String>)
    ensures
        match find_burst_file(text::lines(proc_cgroup@), v2) {
            Some(p) => r is Ok && r->Ok_0@ == p,
            None => r matches Err(AppError::Internal(m)) && m@
                == "no cpu controller found in cgroup file"@,
        },
{
    let lines = text::lines_of(proc_cgroup);
    let ghost all = lines@.map_values(|v: Vec<char>| v@);
    let mut i: usize = 0;
    assert(all.skip(0) =~= all);
    while i < lines.len()
        invariant
            i <= lines.len(),
            all == lines@.map_values(|v: Vec<char>| v@),
            all == text::lines(proc_cgroup@),
            find_burst_file(all, v2) == find_burst_file(all.skip(i as int), v2),
        decreases lines.len() - i,
    {
        assert(all.skip(i as int)[0] == lines@[i as int]@);
        assert(all.skip(i as int).skip(1) =~= all.skip(i + 1));
        if let Some(p) = read_line(&lines[i], v2) {
            let rel = text::trimmed_start_of(p.as_str(), '/');
            if v2 {
                let dir = paths::join_path("/sys/fs/cgroup", rel.as_str());
                return Ok(paths::join_path(dir.as_str(), "cpu.max.burst"));
            }
            let dir = paths::join_path("/sys/fs/cgroup/cpu", rel.as_str());
            return Ok(paths::join_path(dir.as_str(), "cpu.cfs_burst_us"));
        }
        i = i + 1;
    }
    Err(AppError::Internal("no cpu controller found in cgroup file".to_owned()))
}

/// The burst is the configured percentage of the quota: nothing of no quota, and never
/// more than all of it.
pub proof fn law_bursts(quota: int, percent: int)
    ensures
        quota <= 0 || percent <= 0 ==> burst(quota, percent) == 0,
        quota > 0 && percent >= 100 ==> burst(quota, percent) == quota,
        quota > 0 && 0 < percent <= 100 ==> burst(quota, percent) * 100 <= quota * percent
            && quota * percent < (burst(quota, percent) + 1) * 100,
        0 <= burst(quota, percent) && (quota >= 0 ==> burst(quota, percent) <= quota),
{
    if quota > 0 && 0 < percent <= 100 {
        assert(quota * percent >= 0) by (nonlinear_arith)
            requires
                quota > 0,
                percent > 0,
        ;
        assert(quota * percent <= quota * 100) by (nonlinear_arith)
            requires
                quota > 0,
                percent <= 100,
        ;
    }
}

/// The path of a control group is taken from its line: with the unified hierarchy from
/// the one with the number 0 and no controllers, else from one that has `cpu`.
pub proof fn law_lines_of_control_groups(
    number: Seq<char>,
    controllers: Seq<char>,
    path: Seq<char>,
)
    requires
        forall|i: int| 0 <= i < number.len() ==> #[trigger] number[i] != ':',
        forall|i: int| 0 <= i < controllers.len() ==> #[trigger] controllers[i] != ':',
    ensures
        ({
            let line = number + seq![':'] + controllers + seq![':'] + path;
            let good = path.len() > 0 && path[0] == '/' && text::find(path, ".."@) < 0;
            &&& line_path(line, true) == (if good && number == "0"@ && controllers.len() == 0 {
                Some(path)
            } else {
                None
            })
            &&& line_path(line, false) == (if good && text::split_on(controllers, ',').contains(
                "cpu"@,
            ) {
                Some(path)
            } else {
                None
            })
        }),
{
    let rest = controllers + seq![':'] + path;
    let line = number + seq![':'] + controllers + seq![':'] + path;
    assert(line =~= number + seq![':'] + rest);
    text::law_first(number, ':', rest);
    assert(line.skip(number.len() as int + 1) =~= rest);
    text::law_first(controllers, ':', path);
    assert(line.take(number.len() as int) =~= number);
    let b = number.len() + 1 + controllers.len();
    assert(line.subrange(number.len() as int + 1, b as int) =~= controllers);
    assert(line.skip(b as int + 1) =~= path);
}

/// The first line that has a path tells where the burst is written.
pub proof fn law_first_group_counts(before: Seq<Seq<char>>, line: Seq<char>, behind: Seq<Seq<char>>, v2: bool)
    requires
        forall|i: int| 0 <= i < before.len() ==> line_path(#[trigger] before[i], v2) is None,
    ensures
        line_path(line, v2) matches Some(p) ==> find_burst_file(
            before + seq![line] + behind,
            v2,
        ) == Some(burst_file(p, v2)),
        find_burst_file(before, v2) is None,
    decreases before.len(),
{
    let all = before + seq![line] + behind;
    if before.len() == 0 {
        assert(all[0] == line);
    } else {
        let rest = before.skip(1);
        assert(all[0] == before[0]);
        assert(line_path(before[0], v2) is None);
        assert(all.skip(1) =~= rest + seq![line] + behind);
        assert forall|i: int| 0 <= i < rest.len() implies line_path(#[trigger] rest[i], v2) is None by {
            assert(rest[i] == before[i + 1]);
        }
        law_first_group_counts(rest, line, behind, v2);
    }
}

/// Where the burst of a group is written.
pub proof fn law_burst_files(rel: Seq<char>)
    requires
        rel.len() > 0 && rel[0] != '/' && rel.last() != '/',
    ensures
        burst_file(seq!['/'] + rel, true) == "/sys/fs/cgroup"@ + "/"@ + rel + "/"@
            + "cpu.max.burst"@,
        burst_file(seq!['/'] + rel, false) == "/sys/fs/cgroup/cpu"@ + "/"@ + rel + "/"@
            + "cpu.cfs_burst_us"@,
{
    reveal_strlit("/sys/fs/cgroup");
    reveal_strlit("/sys/fs/cgroup/cpu");
    reveal_strlit("cpu.max.burst");
    reveal_strlit("cpu.cfs_burst_us");
    reveal_strlit("/");
    let p = seq!['/'] + rel;
    assert(p.skip(1) =~= rel);
    assert(text::trim_start_of(rel, '/') == rel);
    assert(text::trim_start_of(p, '/') == rel);
    let a = "/sys/fs/cgroup"@ + "/"@ + rel;
    let b = "/sys/fs/cgroup/cpu"@ + "/"@ + rel;
    assert(a.last() == rel.last() && b.last() == rel.last());
}

} // verus!
