//! The console of a server: its latest lines, and how many it may print.
use vstd::prelude::*;
use crate::config::ConsoleThrottles;
use crate::text;

verus! {

/// The latest lines of a console and the window that limits them.
#[derive(Debug, Clone)]
pub struct Console {
    lines: Vec<String>,
    limit: usize,
    count: u64,
    last: u64,
    struck: bool,
}

/// What a console holds.
#[verifier::ext_equal]
pub struct ConsoleView {
    /// the lines that are kept, oldest first
    pub lines: Seq<Seq<char>>,
    /// how many are kept
    pub limit: usize,
    /// how many lines the window let through
    pub count: u64,
    /// when the window began, in milliseconds
    pub last: u64,
    /// whether users were told that lines are dropped
    pub struck: bool,
}

/// What users are told when lines are dropped.
pub open spec fn notice() -> Seq<char> {
    "Server is outputting console data too quickly -- throttling..."@
}

/// The kept lines with one more: the oldest one goes when there is no room.
pub open spec fn kept(lines: Seq<Seq<char>>, limit: usize, line: Seq<char>) -> Seq<Seq<char>> {
    if lines.len() >= limit && lines.len() > 0 {
        lines.skip(1).push(line)
    } else {
        lines.push(line)
    }
}

/// The lines kept of a whole output.
pub open spec fn kept_of(all: Seq<Seq<char>>, limit: usize) -> Seq<Seq<char>>
    decreases all.len(),
{
    if all.len() == 0 {
        Seq::empty()
    } else {
        kept(kept_of(all.drop_last(), limit), limit, all.last())
    }
}

/// The time since `last`, which is nothing when `now` is earlier.
pub open spec fn since(last: u64, now: u64) -> int {
    if now >= last {
        now - last
    } else {
        0
    }
}

/// The window as it is at `now`: a new one when the old one is over.
pub open spec fn window(v: ConsoleView, reset: u64, now: u64) -> ConsoleView {
    if since(v.last, now) >= reset {
        ConsoleView { count: 0, last: now, ..v }
    } else {
        v
    }
}

/// The console after one line, and what listeners get of it.
pub open spec fn fed(v: ConsoleView, line: Seq<char>, t: ConsoleThrottles, now: u64) -> (
    ConsoleView,
    Option<Seq<char>>,
) {
    if t.enabled {
        let w = window(v, t.line_reset_interval, now);
        if w.count >= t.lines {
            if w.struck {
                (w, None)
            } else {
                (
                    ConsoleView {
                        struck: true,
                        lines: kept(w.lines, w.limit, notice()),
                        ..w
                    },
                    Some(notice()),
                )
            }
        } else {
            (
                ConsoleView {
                    count: (w.count + 1) as u64,
                    struck: false,
                    lines: kept(w.lines, w.limit, line),
                    ..w
                },
                Some(line),
            )
        }
    } else {
        (ConsoleView { lines: kept(v.lines, v.limit, line), ..v }, Some(line))
    }
}

/// The console after some lines, and what listeners get of them.
pub open spec fn fed_all(v: ConsoleView, lines: Seq<Seq<char>>, t: ConsoleThrottles, now: u64) -> (
    ConsoleView,
    Seq<Seq<char>>,
)
    decreases lines.len(),
{
    if lines.len() == 0 {
        (v, Seq::empty())
    } else {
        let (w, out) = fed_all(v, lines.drop_last(), t, now);
        let (x, said) = fed(w, lines.last(), t, now);
        (
            x,
            match said {
                Some(s) => out.push(s),
                None => out,
            },
        )
    }
}

/// The lines of some pieces: without carriage returns at their ends, and without
/// empty ones.
pub open spec fn lines_in(pieces: Seq<Seq<char>>) -> Seq<Seq<char>>
    decreases pieces.len(),
{
    if pieces.len() == 0 {
        Seq::empty()
    } else {
        let line = text::trim_end_of(pieces.last(), '\r');
        if line.len() == 0 {
            lines_in(pieces.drop_last())
        } else {
            lines_in(pieces.drop_last()).push(line)
        }
    }
}

/// The lines in what a container printed.
pub open spec fn console_lines(bytes: Seq<u8>) -> Seq<Seq<char>> {
    lines_in(text::split_on(text::utf8_lossy(bytes), '\n'))
}

/// The lines in what a container printed.
pub fn read_lines(bytes: &[u8]) -> (r: Vec<String>)
    ensures
        text::texts(r@) == console_lines(bytes@),
{
    let s = text::from_utf8_lossy(bytes);
    let pieces = text::split_str(s.as_str(), '\n');
    let ghost all = text::split_on(text::utf8_lossy(bytes@), '\n');
    let mut out: Vec<String> = Vec::new();
    let mut i: usize = 0;
    assert(text::texts(out@) =~= Seq::<Seq<char>>::empty());
    while i < pieces.len()
        invariant
            i <= pieces.len(),
            all == text::texts(pieces@),
            text::texts(out@) == lines_in(all.take(i as int)),
        decreases pieces.len() - i,
    {
        let line = text::trimmed_end_of(pieces[i].as_str(), '\r');
        let ghost before = out@;
        let ghost shown = line@;
        assert(all.take(i + 1).drop_last() =~= all.take(i as int));
        if !line.as_str().is_empty() {
            out.push(line);
            assert(text::texts(out@) =~= text::texts(before).push(shown));
        }
        i = i + 1;
    }
    assert(all.take(i as int) =~= all);
    out
}

impl View for Console {
    type V = ConsoleView;

    closed spec fn view(&self) -> ConsoleView {
        ConsoleView {
            lines: text::texts(self.lines@),
            limit: self.limit,
            count: self.count,
            last: self.last,
            struck: self.struck,
        }
    }
}

impl Console {
    /// An empty console that keeps `limit` lines.
    pub fn new(limit: usize, now: u64) -> (r: Self)
        ensures
            r@ == (ConsoleView { lines: Seq::empty(), limit, count: 0, last: now, struck: false }),
    {
        let r = Console { lines: Vec::new(), limit, count: 0, last: now, struck: false };
        assert(text::texts(r.lines@) =~= Seq::empty());
        r
    }

    fn keep(&mut self, line: &str)
        ensures
            final(self)@ == (ConsoleView {
                lines: kept(old(self)@.lines, old(self)@.limit, line@),
                ..old(self)@
            }),
    {
        let ghost before = self.lines@;
        if self.lines.len() >= self.limit && self.lines.len() > 0 {
            self.lines.remove(0);
            assert(text::texts(self.lines@) =~= text::texts(before).skip(1));
        }
        let ghost mid = self.lines@;
        self.lines.push(line.to_owned());
        assert(text::texts(self.lines@) =~= text::texts(mid).push(line@));
    }

    /// Takes one line of output. Returns the line that listeners get: the line
    /// itself, or a notice for the first one that is dropped.
    pub fn push_line(&mut self, line: &str, t: &ConsoleThrottles, now: u64) -> (r: Option<String>)
        ensures
            final(self)@ == fed(old(self)@, line@, *t, now).0,
            match r {
                Some(s) => fed(old(self)@, line@, *t, now).1 == Some(s@),
                None => fed(old(self)@, line@, *t, now).1 is None,
            },
    {
        if t.enabled {
            let elapsed: u64 = if now >= self.last {
                now - self.last
            } else {
                0
            };
            if elapsed >= t.line_reset_interval {
                self.count = 0;
                self.last = now;
            }
            if self.count >= t.lines {
                if self.struck {
                    return None;
                }
                self.struck = true;
                let n = "Server is outputting console data too quickly -- throttling...";
                self.keep(n);
                return Some(n.to_owned());
            }
            self.count = self.count + 1;
            self.struck = false;
        }
        self.keep(line);
        Some(line.to_owned())
    }

    /// Takes what a container printed. Returns the lines that listeners get.
    pub fn push_console_bytes(&mut self, bytes: &[u8], t: &ConsoleThrottles, now: u64) -> (r: Vec<
        String,
    >)
        ensures
            final(self)@ == fed_all(old(self)@, console_lines(bytes@), *t, now).0,
            text::texts(r@) == fed_all(old(self)@, console_lines(bytes@), *t, now).1,
    {
        let lines = read_lines(bytes);
        let ghost all = text::texts(lines@);
        let mut out: Vec<String> = Vec::new();
        let mut i: usize = 0;
        assert(all.take(0) =~= Seq::empty());
        assert(text::texts(out@) =~= Seq::<Seq<char>>::empty());
        while i < lines.len()
            invariant
                i <= lines.len(),
                all == text::texts(lines@),
                self@ == fed_all(old(self)@, all.take(i as int), *t, now).0,
                text::texts(out@) == fed_all(old(self)@, all.take(i as int), *t, now).1,
            decreases lines.len() - i,
        {
            let ghost before = out@;
            assert(all.take(i + 1).drop_last() =~= all.take(i as int));
            if let Some(said) = self.push_line(lines[i].as_str(), t, now) {
                out.push(said);
                assert(text::texts(out@) =~= text::texts(before).push(said@));
            }
            i = i + 1;
        }
        assert(all.take(i as int) =~= all);
        out
    }

    /// The lines that are kept.
    pub fn recent_logs(&self) -> (r: Vec<String>)
        ensures
            text::texts(r@) == self@.lines,
    {
        text::copy_texts(&self.lines)
    }
}

/// A console keeps the latest lines of its output: as many as it may, and one
/// where it may keep none.
pub proof fn law_latest_lines_are_kept(all: Seq<Seq<char>>, limit: usize)
    ensures
        ({
            let room = if limit == 0 {
                1
            } else {
                limit as int
            };
            kept_of(all, limit) == (if all.len() <= room {
                all
            } else {
                all.skip(all.len() - room)
            })
        }),
    decreases all.len(),
{
    if all.len() > 0 {
        law_latest_lines_are_kept(all.drop_last(), limit);
        let room = if limit == 0 {
            1
        } else {
            limit as int
        };
        let k = kept_of(all, limit);
        if all.len() <= room {
            assert(k =~= all);
        } else {
            assert(k =~= all.skip(all.len() - room));
        }
    } else {
        assert(kept_of(all, limit) =~= all);
    }
}

/// How many lines of an output that comes within one window are let through.
pub open spec fn passed(v: ConsoleView, lines: Seq<Seq<char>>, t: ConsoleThrottles, now: u64) -> int
    decreases lines.len(),
{
    if lines.len() == 0 {
        0
    } else {
        let w = fed_all(v, lines.drop_last(), t, now).0;
        let more: int = if fed(w, lines.last(), t, now).0.count > window(
            w,
            t.line_reset_interval,
            now,
        ).count {
            1
        } else {
            0
        };
        passed(v, lines.drop_last(), t, now) + more
    }
}

/// Within one window no more lines are let through than are allowed.
pub proof fn law_window_limits_lines(v: ConsoleView, lines: Seq<Seq<char>>, t: ConsoleThrottles, now: u64)
    requires
        t.enabled,
        since(v.last, now) < t.line_reset_interval,
        v.count <= t.lines,
    ensures
        v.count + passed(v, lines, t, now) == fed_all(v, lines, t, now).0.count,
        v.count + passed(v, lines, t, now) <= t.lines,
        fed_all(v, lines, t, now).0.last == v.last,
    decreases lines.len(),
{
    if lines.len() > 0 {
        law_window_limits_lines(v, lines.drop_last(), t, now);
    }
}

/// Users are told once that lines are dropped, until a line passes again.
pub proof fn law_told_once(v: ConsoleView, line: Seq<char>, t: ConsoleThrottles, now: u64)
    requires
        t.enabled,
        v.struck,
        since(v.last, now) < t.line_reset_interval,
        v.count >= t.lines,
    ensures
        fed(v, line, t, now) == (v, None::<Seq<char>>),
{
}

/// Without throttling every line is kept and passed on.
pub proof fn law_unthrottled_lines_pass(v: ConsoleView, line: Seq<char>, t: ConsoleThrottles, now: u64)
    requires
        !t.enabled,
    ensures
        fed(v, line, t, now).1 == Some(line),
        fed(v, line, t, now).0.lines.len() > 0 && fed(v, line, t, now).0.lines.last() == line,
        fed(v, line, t, now).0.count == v.count,
{
}

/// A line passes, and is counted, while fewer have passed in the window than may. The
/// first that may not is replaced by a notice; a new window lets lines pass again.
pub proof fn law_lines_pass_until_the_limit(
    v: ConsoleView,
    line: Seq<char>,
    t: ConsoleThrottles,
    now: u64,
)
    requires
        t.enabled,
        v.last <= now,
        v.count < u64::MAX,
    ensures
        ({
            let (after, said) = fed(v, line, t, now);
            let fresh = now - v.last >= t.line_reset_interval;
            &&& !fresh && v.count < t.lines ==> said == Some(line) && after.count == v.count + 1
                && after.last == v.last && after.lines.last() == line && !after.struck
            &&& fresh && t.lines > 0 ==> said == Some(line) && after.count == 1 && after.last == now
                && after.lines.last() == line && !after.struck
            &&& !fresh && v.count >= t.lines && !v.struck ==> said == Some(
                "Server is outputting console data too quickly -- throttling..."@,
            ) && after.struck && after.count == v.count
            &&& !fresh && v.count >= t.lines && v.struck ==> said is None && after == v
        }),
{
}

/// A piece of output is a line without the carriage returns at its end, unless nothing
/// is left of it.
pub proof fn law_lines_of_output(pieces: Seq<Seq<char>>, l: Seq<char>, n: nat)
    requires
        l.len() > 0 ==> l.last() != '\r',
    ensures
        lines_in(pieces.push(l + Seq::new(n, |i: int| '\r'))) == (if l.len() == 0 {
            lines_in(pieces)
        } else {
            lines_in(pieces).push(l)
        }),
        lines_in(Seq::empty()).len() == 0,
{
    let all = pieces.push(l + Seq::new(n, |i: int| '\r'));
    assert(all.drop_last() =~= pieces);
    text::law_trim_end_of(l, n, '\r');
}

/// The lines of an output are what stands between its line feeds.
pub proof fn law_output_is_split(bytes: Seq<u8>, l: Seq<char>, rest: Seq<char>)
    requires
        text::utf8_lossy(bytes) == l + seq!['\n'] + rest,
        l.len() > 0 && l.last() != '\r',
        forall|i: int| 0 <= i < l.len() ==> #[trigger] l[i] != '\n',
    ensures
        console_lines(bytes) == seq![l] + lines_in(text::split_on(rest, '\n')),
{
    text::law_split_on(l, '\n', rest);
    lemma_lines_in_cat(seq![l], text::split_on(rest, '\n'));
    let none = Seq::<Seq<char>>::empty();
    law_lines_of_output(none, l, 0);
    assert(l + Seq::new(0, |i: int| '\r') =~= l);
    assert(none.push(l) =~= seq![l]);
    assert(lines_in(seq![l]) =~= seq![l]);
}

proof fn lemma_lines_in_cat(a: Seq<Seq<char>>, b: Seq<Seq<char>>)
    ensures
        lines_in(a + b) == lines_in(a) + lines_in(b),
    decreases b.len(),
{
    if b.len() == 0 {
        assert(a + b =~= a);
        assert(lines_in(a) + lines_in(b) =~= lines_in(a));
    } else {
        lemma_lines_in_cat(a, b.drop_last());
        assert((a + b).drop_last() =~= a + b.drop_last());
        assert(lines_in(a + b) =~= lines_in(a) + lines_in(b));
    }
}

/// Time does not run backwards: what is said to lie ahead is as good as now.
pub proof fn law_time_since(last: u64, now: u64)
    ensures
        last <= now ==> since(last, now) == now - last,
        last > now ==> since(last, now) == 0,
{
}

} // verus!
