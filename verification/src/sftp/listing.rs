//! How files are listed: their dates, their long names and their order.
use vstd::prelude::*;
use crate::numbers;
use crate::server::files::bit_char;
use crate::sftp::server::{is_fault, SftpCode, SftpFault};
use crate::text;

verus! {

// ---------------------------------------------------------------------------
// Dates
// ---------------------------------------------------------------------------
pub open spec fn is_leap(y: int) -> bool {
    (y % 4 == 0 && y % 100 != 0) || y % 400 == 0
}

pub open spec fn year_days(y: int) -> int {
    if is_leap(y) {
        366
    } else {
        365
    }
}

/// The days from the beginning of 1970 to that of a year.
pub open spec fn days_to_year(y: int) -> int
    decreases y - 1970,
{
    if y <= 1970 {
        0
    } else {
        days_to_year(y - 1) + year_days(y - 1)
    }
}

pub open spec fn month_days(m: int, leap: bool) -> int {
    if m == 2 {
        if leap {
            29
        } else {
            28
        }
    } else if m == 4 || m == 6 || m == 9 || m == 11 {
        30
    } else {
        31
    }
}

/// The days from the beginning of a year to that of a month.
pub open spec fn days_to_month(m: int, leap: bool) -> int
    decreases m,
{
    if m <= 1 {
        0
    } else {
        days_to_month(m - 1, leap) + month_days(m - 1, leap)
    }
}

/// A time in UTC.
#[derive(Debug, Clone, Copy, PartialEq, Eq, Structural)]
pub struct Date {
    pub year: i64,
    pub month: i64,
    pub day: i64,
    pub hour: i64,
    pub minute: i64,
}

/// Whether a date is the one of a time in seconds. Days before 1970 are counted
/// back from its first one.
pub open spec fn is_date(d: Date, t: int) -> bool {
    let days = t / 86400;
    let secs = t % 86400;
    &&& d.hour == secs / 3600
    &&& d.minute == (secs % 3600) / 60
    &&& if days < 0 {
        d.year == 1970 && d.month == 1 && d.day == days + 1
    } else {
        let rest = days - days_to_year(d.year as int);
        let leap = is_leap(d.year as int);
        &&& d.year >= 1970
        &&& 0 <= rest < year_days(d.year as int)
        &&& 1 <= d.month <= 12
        &&& days_to_month(d.month as int, leap) <= rest < days_to_month(d.month + 1, leap)
        &&& d.day == rest - days_to_month(d.month as int, leap) + 1
    }
}

fn leap_year(y: i64) -> (r: bool)
    requires
        y >= 0,
    ensures
        r == is_leap(y as int),
{
    (y % 4 == 0 && y % 100 != 0) || y % 400 == 0
}

fn month_length(m: i64, leap: bool) -> (r: i64)
    ensures
        r == month_days(m as int, leap),
{
    if m == 2 {
        if leap {
            29
        } else {
            28
        }
    } else if m == 4 || m == 6 || m == 9 || m == 11 {
        30
    } else {
        31
    }
}

/// The date of a time in seconds.
pub fn epoch_parts(t: i64) -> (r: Date)
    ensures
        is_date(r, t as int),
{
    let days: i64 = if t >= 0 {
        t / 86400
    } else {
        -1 - ((-1 - t) / 86400)
    };
    let secs: i64 = if t >= 0 {
        t % 86400
    } else {
        86399 - ((-1 - t) % 86400)
    };
    assert(days == t as int / 86400 && secs == t as int % 86400);
    let hour: i64 = secs / 3600;
    let minute: i64 = (secs % 3600) / 60;
    if days < 0 {
        return Date { year: 1970, month: 1, day: days + 1, hour, minute };
    }
    let mut rest: i64 = days;
    let mut year: i64 = 1970;
    let mut in_year: i64 = if leap_year(year) {
        366
    } else {
        365
    };
    while rest >= in_year
        invariant
            1970 <= year <= 1970 + (days - rest),
            0 <= rest <= days,
            days <= 200000000000000,
            rest == days - days_to_year(year as int),
            in_year == year_days(year as int),
        decreases rest,
    {
        rest = rest - in_year;
        year = year + 1;
        in_year = if leap_year(year) {
            366
        } else {
            365
        };
    }
    let leap = leap_year(year);
    let ghost left = rest;
    let mut month: i64 = 1;
    let mut len: i64 = 31;
    proof {
        reveal_with_fuel(days_to_month, 14);
        assert(days_to_month(13, true) == 366);
        assert(days_to_month(13, false) == 365);
    }
    while rest >= len
        invariant
            1 <= month <= 12,
            0 <= rest <= left,
            left < year_days(year as int),
            leap == is_leap(year as int),
            rest == left - days_to_month(month as int, leap),
            len == month_days(month as int, leap),
            days_to_month(13, true) == 366,
            days_to_month(13, false) == 365,
        decreases rest,
    {
        proof {
            if month == 12 {
                assert(days_to_month(13, leap) == days_to_month(12, leap) + month_days(12, leap));
            }
        }
        rest = rest - len;
        month = month + 1;
        len = month_length(month, leap);
    }
    Date { year, month, day: rest + 1, hour, minute }
}

proof fn lemma_years_grow(y: int, z: int)
    requires
        1970 <= y <= z,
    ensures
        days_to_year(y) + (z - y) <= days_to_year(z),
    decreases z - y,
{
    if y < z {
        lemma_years_grow(y, z - 1);
    }
}

proof fn lemma_months_grow(m: int, n: int, leap: bool)
    requires
        1 <= m <= n,
    ensures
        days_to_month(m, leap) + (n - m) <= days_to_month(n, leap),
    decreases n - m,
{
    if m < n {
        lemma_months_grow(m, n - 1, leap);
    }
}

/// A time has one date only.
pub proof fn law_a_time_has_one_date(t: int, a: Date, b: Date)
    requires
        is_date(a, t),
        is_date(b, t),
    ensures
        a == b,
{
    if t / 86400 >= 0 {
        if a.year < b.year {
            lemma_years_grow(a.year + 1, b.year as int);
        }
        if b.year < a.year {
            lemma_years_grow(b.year + 1, a.year as int);
        }
        let leap = is_leap(a.year as int);
        if a.month < b.month {
            lemma_months_grow(a.month + 1, b.month as int, leap);
        }
        if b.month < a.month {
            lemma_months_grow(b.month + 1, a.month as int, leap);
        }
    }
}

// ---------------------------------------------------------------------------
// Long names
// ---------------------------------------------------------------------------
/// What is known of a file.
#[derive(Debug, Clone, Copy)]
pub struct FileFacts {
    pub mode: u32,
    pub nlink: u64,
    pub uid: u32,
    pub gid: u32,
    pub size: u64,
    pub atime: i64,
    pub mtime: i64,
}

/// What a client is told of a file.
#[derive(Debug, Clone, Copy, PartialEq, Eq, Structural)]
pub struct FileAttrs {
    pub size: u64,
    pub uid: u32,
    pub gid: u32,
    pub permissions: u32,
    pub atime: u32,
    pub mtime: u32,
}

fn seconds(t: i64) -> (r: u32)
    ensures
        r == (if t < 0 {
            0u32
        } else {
            t as u32
        }),
{
    if t < 0 {
        0
    } else {
        t as u32
    }
}

/// What a client is told of a file. Times before 1970 become its beginning.
pub fn attrs_of(f: &FileFacts) -> (r: FileAttrs)
    ensures
        r.size == f.size && r.uid == f.uid && r.gid == f.gid && r.permissions == f.mode,
        r.atime == (if f.atime < 0 {
            0u32
        } else {
            f.atime as u32
        }),
        r.mtime == (if f.mtime < 0 {
            0u32
        } else {
            f.mtime as u32
        }),
{
    FileAttrs {
        size: f.size,
        uid: f.uid,
        gid: f.gid,
        permissions: f.mode,
        atime: seconds(f.atime),
        mtime: seconds(f.mtime),
    }
}

/// As many of a character.
pub open spec fn run(c: char, n: int) -> Seq<char> {
    Seq::new(
        if n > 0 {
            n as nat
        } else {
            0
        },
        |i: int| c,
    )
}

/// A text with a character before it, up to a width.
pub open spec fn pad_left(s: Seq<char>, c: char, width: int) -> Seq<char> {
    run(c, width - s.len()) + s
}

/// A text with blanks behind it, up to a width.
pub open spec fn pad_right(s: Seq<char>, width: int) -> Seq<char> {
    s + run(' ', width - s.len())
}

fn padding(c: char, have: usize, width: usize) -> (r: String)
    ensures
        r@ == run(c, width - have),
{
    let mut out: Vec<char> = Vec::new();
    let mut i: usize = have;
    while i < width
        invariant
            have <= i,
            i <= width || i == have,
            out@ =~= run(c, i - have),
        decreases width - i,
    {
        out.push(c);
        i = i + 1;
    }
    assert(out@ =~= run(c, width - have));
    text::string_of(out.as_slice())
}

fn left_padded(s: &str, c: char, width: usize) -> (r: String)
    ensures
        r@ == pad_left(s@, c, width as int),
{
    let n: usize = text::chars_of(s).len();
    text::cat(padding(c, n, width).as_str(), s)
}

fn right_padded(s: &str, width: usize) -> (r: String)
    ensures
        r@ == pad_right(s@, width as int),
{
    let n: usize = text::chars_of(s).len();
    text::cat(s, padding(' ', n, width).as_str())
}

pub open spec fn month_name(m: int) -> Seq<char> {
    if m == 1 {
        "Jan"@
    } else if m == 2 {
        "Feb"@
    } else if m == 3 {
        "Mar"@
    } else if m == 4 {
        "Apr"@
    } else if m == 5 {
        "May"@
    } else if m == 6 {
        "Jun"@
    } else if m == 7 {
        "Jul"@
    } else if m == 8 {
        "Aug"@
    } else if m == 9 {
        "Sep"@
    } else if m == 10 {
        "Oct"@
    } else if m == 11 {
        "Nov"@
    } else {
        "Dec"@
    }
}

fn name_of_month(m: i64) -> (r: &'static str)
    ensures
        r@ == month_name(m as int),
{
    if m == 1 {
        "Jan"
    } else if m == 2 {
        "Feb"
    } else if m == 3 {
        "Mar"
    } else if m == 4 {
        "Apr"
    } else if m == 5 {
        "May"
    } else if m == 6 {
        "Jun"
    } else if m == 7 {
        "Jul"
    } else if m == 8 {
        "Aug"
    } else if m == 9 {
        "Sep"
    } else if m == 10 {
        "Oct"
    } else if m == 11 {
        "Nov"
    } else {
        "Dec"
    }
}

/// What a file is, and what its owner, its group and others may do.
pub open spec fn mode_letters(mode: u32) -> Seq<char> {
    let kind = (mode / 4096) % 16;
    seq![
        if kind == 4 {
            'd'
        } else if kind == 10 {
            'l'
        } else {
            '-'
        },
        bit_char(mode, 256, 'r'),
        bit_char(mode, 128, 'w'),
        bit_char(mode, 64, 'x'),
        bit_char(mode, 32, 'r'),
        bit_char(mode, 16, 'w'),
        bit_char(mode, 8, 'x'),
        bit_char(mode, 4, 'r'),
        bit_char(mode, 2, 'w'),
        bit_char(mode, 1, 'x'),
    ]
}

fn letter(mode: u32, bit: u32, c: char) -> (r: char)
    requires
        bit > 0,
    ensures
        r == bit_char(mode, bit, c),
{
    if (mode / bit) % 2 == 1 {
        c
    } else {
        '-'
    }
}

fn letters(mode: u32) -> (r: String)
    ensures
        r@ == mode_letters(mode),
{
    let kind: u32 = (mode / 4096) % 16;
    let mut v: Vec<char> = Vec::new();
    v.push(
        if kind == 4 {
            'd'
        } else if kind == 10 {
            'l'
        } else {
            '-'
        },
    );
    v.push(letter(mode, 256, 'r'));
    v.push(letter(mode, 128, 'w'));
    v.push(letter(mode, 64, 'x'));
    v.push(letter(mode, 32, 'r'));
    v.push(letter(mode, 16, 'w'));
    v.push(letter(mode, 8, 'x'));
    v.push(letter(mode, 4, 'r'));
    v.push(letter(mode, 2, 'w'));
    v.push(letter(mode, 1, 'x'));
    assert(v@ =~= mode_letters(mode));
    text::string_of(v.as_slice())
}

/// A date as it is listed: with the time of day in the current year, else with
/// the year.
pub open spec fn listed_date(d: Date, this_year: int) -> Seq<char> {
    let day = month_name(d.month as int) + " "@ + pad_left(
        numbers::decimal_int(d.day as int),
        ' ',
        2,
    );
    if d.year == this_year {
        day + " "@ + pad_left(numbers::decimal_int(d.hour as int), '0', 2) + ":"@ + pad_left(
            numbers::decimal_int(d.minute as int),
            '0',
            2,
        )
    } else {
        day + "  "@ + pad_left(numbers::decimal_int(d.year as int), ' ', 4)
    }
}

/// A file as it is listed, by its date.
pub open spec fn listed(f: FileFacts, d: Date, this_year: int, name: Seq<char>) -> Seq<char> {
    mode_letters(f.mode) + " "@ + pad_left(numbers::decimal(f.nlink as nat), ' ', 3) + " "@
        + pad_right(numbers::decimal(f.uid as nat), 8) + " "@ + pad_right(
        numbers::decimal(f.gid as nat),
        8,
    ) + " "@ + pad_left(numbers::decimal(f.size as nat), ' ', 8) + " "@ + listed_date(d, this_year)
        + " "@ + name
}

/// A file as it is listed at a time.
pub fn longname_of(f: &FileFacts, name: &str, now: i64) -> (r: String)
    ensures
        exists|d: Date, n: Date|
            #![trigger is_date(d, f.mtime as int), is_date(n, now as int)]
            is_date(d, f.mtime as int) && is_date(n, now as int) && r@ == listed(
                *f,
                d,
                n.year as int,
                name@,
            ),
{
    let d = epoch_parts(f.mtime);
    let n = epoch_parts(now);
    let mut s = letters(f.mode);
    s.append(" ");
    s.append(left_padded(numbers::decimal_u64(f.nlink).as_str(), ' ', 3).as_str());
    s.append(" ");
    s.append(right_padded(numbers::decimal_u64(f.uid as u64).as_str(), 8).as_str());
    s.append(" ");
    s.append(right_padded(numbers::decimal_u64(f.gid as u64).as_str(), 8).as_str());
    s.append(" ");
    s.append(left_padded(numbers::decimal_u64(f.size).as_str(), ' ', 8).as_str());
    s.append(" ");
    let mut date = text::cat(name_of_month(d.month), " ");
    date.append(left_padded(numbers::decimal_i64(d.day).as_str(), ' ', 2).as_str());
    if d.year == n.year {
        date.append(" ");
        date.append(left_padded(numbers::decimal_i64(d.hour).as_str(), '0', 2).as_str());
        date.append(":");
        date.append(left_padded(numbers::decimal_i64(d.minute).as_str(), '0', 2).as_str());
    } else {
        date.append("  ");
        date.append(left_padded(numbers::decimal_i64(d.year).as_str(), ' ', 4).as_str());
    }
    assert(date@ =~= listed_date(d, n.year as int));
    s.append(date.as_str());
    s.append(" ");
    s.append(name);
    assert(is_date(d, f.mtime as int) && is_date(n, now as int));
    assert(s@ =~= listed(*f, d, n.year as int, name@));
    s
}

// ---------------------------------------------------------------------------
// Directories
// ---------------------------------------------------------------------------
/// One file of a directory.
#[derive(Debug)]
pub struct SftpEntry {
    pub filename: String,
    pub longname: String,
    pub attrs: FileAttrs,
}

/// A file put behind those whose names are not greater.
pub open spec fn insert_named(v: Seq<SftpEntry>, e: SftpEntry) -> Seq<SftpEntry>
    decreases v.len(),
{
    if v.len() == 0 || !text::less(e.filename@, v.last().filename@) {
        v.push(e)
    } else {
        insert_named(v.drop_last(), e).push(v.last())
    }
}

/// Files by their names.
pub open spec fn by_name(v: Seq<SftpEntry>) -> Seq<SftpEntry>
    decreases v.len(),
{
    if v.len() == 0 {
        Seq::empty()
    } else {
        insert_named(by_name(v.drop_last()), v.last())
    }
}

/// Whether no file stands behind one with a greater name.
pub open spec fn is_ordered(v: Seq<SftpEntry>) -> bool {
    forall|i: int, j: int|
        0 <= i < j < v.len() ==> !text::less(
            (#[trigger] v[j]).filename@,
            (#[trigger] v[i]).filename@,
        )
}

/// A directory that a client reads.
#[derive(Debug)]
pub struct Directory {
    rest: Vec<SftpEntry>,
}

impl Directory {
    /// The files that the client has not got yet.
    pub closed spec fn left(&self) -> Seq<SftpEntry> {
        self.rest@
    }

    /// A directory with some files, which are read by their names.
    pub fn new(entries: Vec<SftpEntry>) -> (r: Self)
        ensures
            r.left() == by_name(entries@),
    {
        let ghost all = entries@;
        let mut rest = entries;
        let n: usize = rest.len();
        let mut out: Vec<SftpEntry> = Vec::new();
        let mut i: usize = 0;
        assert(all.skip(0) =~= all);
        assert(all.take(0) =~= Seq::empty());
        while i < n
            invariant
                i <= n,
                n == all.len(),
                rest@ == all.skip(i as int),
                out@ == by_name(all.take(i as int)),
            decreases n - i,
        {
            let e = rest.remove(0);
            proof {
                assert(e == all[i as int]);
                assert(rest@ =~= all.skip(i + 1));
                assert(all.take(i + 1).drop_last() =~= all.take(i as int));
                assert(all.take(i + 1).last() == e);
            }
            let mut at: usize = out.len();
            let ghost v = out@;
            assert(v.take(v.len() as int) =~= v);
            assert(insert_named(v, e) + v.skip(v.len() as int) =~= insert_named(v, e));
            while at > 0 && text::before(e.filename.as_str(), out[at - 1].filename.as_str())
                invariant
                    at <= out.len(),
                    out@ == v,
                    insert_named(v, e) == insert_named(v.take(at as int), e) + v.skip(at as int),
                decreases at,
            {
                proof {
                    let t = v.take(at as int);
                    assert(t.last() == v[at - 1]);
                    assert(t.drop_last() =~= v.take(at - 1));
                    assert(insert_named(t, e) + v.skip(at as int) =~= insert_named(
                        v.take(at - 1),
                        e,
                    ) + v.skip(at - 1));
                }
                at = at - 1;
            }
            proof {
                let t = v.take(at as int);
                if at > 0 {
                    assert(t.last() == v[at - 1]);
                }
                assert(insert_named(t, e) == t.push(e));
                assert(t.push(e) + v.skip(at as int) =~= v.insert(at as int, e));
            }
            out.insert(at, e);
            i = i + 1;
        }
        assert(all.take(i as int) =~= all);
        Directory { rest: out }
    }

    /// The files that the client has not got yet; none are left then.
    pub fn readdir(&mut self) -> (r: Result<Vec<SftpEntry>, SftpFault>)
        ensures
            final(self).left().len() == 0,
            match r {
                Ok(v) => v@ == old(self).left() && v@.len() > 0,
                Err(f) => old(self).left().len() == 0 && is_fault(
                    f,
                    SftpCode::Eof,
                    "no more entries"@,
                ),
            },
    {
        if self.rest.len() == 0 {
            return Err(SftpFault { code: SftpCode::Eof, message: "no more entries" });
        }
        let mut v: Vec<SftpEntry> = Vec::new();
        std::mem::swap(&mut v, &mut self.rest);
        Ok(v)
    }
}

proof fn lemma_insert_named(v: Seq<SftpEntry>, e: SftpEntry)
    requires
        is_ordered(v),
    ensures
        is_ordered(insert_named(v, e)),
        insert_named(v, e).len() == v.len() + 1,
        insert_named(v, e).to_multiset() == v.to_multiset().insert(e),
        forall|k: Seq<char>|
            (forall|i: int| 0 <= i < v.len() ==> !text::less(k, (#[trigger] v[i]).filename@))
                && !text::less(k, e.filename@) ==> (forall|i: int|
                0 <= i < insert_named(v, e).len() ==> !text::less(
                    k,
                    (#[trigger] insert_named(v, e)[i]).filename@,
                )),
    decreases v.len(),
{
    broadcast use vstd::seq_lib::group_to_multiset_ensures;

    let r = insert_named(v, e);
    if v.len() == 0 || !text::less(e.filename@, v.last().filename@) {
        assert forall|i: int, j: int| 0 <= i < j < r.len() implies !text::less(
            (#[trigger] r[j]).filename@,
            (#[trigger] r[i]).filename@,
        ) by {
            if j == v.len() {
                assert(r[i] == v[i]);
                if text::less(e.filename@, v[i].filename@) {
                    let last = v[v.len() - 1];
                    if i < v.len() - 1 {
                        assert(!text::less(v[v.len() - 1].filename@, v[i].filename@));
                        text::lemma_less_total(v[i].filename@, last.filename@);
                        if text::less(v[i].filename@, last.filename@) {
                            text::lemma_less_transitive(
                                e.filename@,
                                v[i].filename@,
                                last.filename@,
                            );
                        }
                    }
                }
            } else {
                assert(r[i] == v[i] && r[j] == v[j]);
            }
        }
    } else {
        let t = v.drop_last();
        let last = v.last();
        assert(v =~= t.push(last));
        assert forall|i: int, j: int| 0 <= i < j < t.len() implies !text::less(
            (#[trigger] t[j]).filename@,
            (#[trigger] t[i]).filename@,
        ) by {
            assert(t[i] == v[i] && t[j] == v[j]);
        }
        lemma_insert_named(t, e);
        let q = insert_named(t, e);
        assert(r == q.push(last));
        assert forall|i: int| 0 <= i < t.len() implies !text::less(
            last.filename@,
            (#[trigger] t[i]).filename@,
        ) by {
            assert(t[i] == v[i]);
            assert(last == v[v.len() - 1]);
        }
        if text::less(last.filename@, e.filename@) {
            text::lemma_less_transitive(e.filename@, last.filename@, e.filename@);
            text::lemma_less_irreflexive(e.filename@);
        }
        assert forall|i: int, j: int| 0 <= i < j < r.len() implies !text::less(
            (#[trigger] r[j]).filename@,
            (#[trigger] r[i]).filename@,
        ) by {
            assert(r[i] == q[i]);
            if j < q.len() {
                assert(r[j] == q[j]);
            }
        }
        assert forall|k: Seq<char>|
            (forall|i: int| 0 <= i < v.len() ==> !text::less(k, (#[trigger] v[i]).filename@))
                && !text::less(k, e.filename@) implies (forall|i: int|
            0 <= i < r.len() ==> !text::less(k, (#[trigger] r[i]).filename@)) by {
            assert forall|i: int| 0 <= i < t.len() implies !text::less(
                k,
                (#[trigger] t[i]).filename@,
            ) by {
                assert(t[i] == v[i]);
            }
            assert(!text::less(k, v[v.len() - 1].filename@));
            assert forall|i: int| 0 <= i < r.len() implies !text::less(
                k,
                (#[trigger] r[i]).filename@,
            ) by {
                if i < q.len() {
                    assert(r[i] == q[i]);
                }
            }
        }
        assert(r.to_multiset() =~= v.to_multiset().insert(e));
    }
}

/// A directory is read in the order of the names, and every file is read once.
pub proof fn law_directories_are_read_in_order(v: Seq<SftpEntry>)
    ensures
        is_ordered(by_name(v)),
        by_name(v).to_multiset() == v.to_multiset(),
    decreases v.len(),
{
    broadcast use vstd::seq_lib::group_to_multiset_ensures;

    if v.len() > 0 {
        law_directories_are_read_in_order(v.drop_last());
        lemma_insert_named(by_name(v.drop_last()), v.last());
        assert(v =~= v.drop_last().push(v.last()));
    } else {
        assert(by_name(v) =~= v);
    }
}

/// The days up to a year are 365 for each, and one more for each leap year before it.
pub proof fn law_days_of_years(y: int)
    requires
        y >= 1970,
    ensures
        days_to_year(y) == 365 * (y - 1970) + (y - 1969) / 4 - (y - 1901) / 100 + (y - 1601) / 400,
    decreases y,
{
    if y > 1970 {
        law_days_of_years(y - 1);
    }
}

/// The days up to a month.
pub proof fn law_days_of_months(leap: bool)
    ensures
        days_to_month(1, leap) == 0,
        days_to_month(2, leap) == 31,
        days_to_month(3, leap) == 59 + (if leap {
            1int
        } else {
            0
        }),
        days_to_month(4, leap) == days_to_month(3, leap) + 31,
        days_to_month(5, leap) == days_to_month(4, leap) + 30,
        days_to_month(6, leap) == days_to_month(5, leap) + 31,
        days_to_month(7, leap) == days_to_month(6, leap) + 30,
        days_to_month(8, leap) == days_to_month(7, leap) + 31,
        days_to_month(9, leap) == days_to_month(8, leap) + 31,
        days_to_month(10, leap) == days_to_month(9, leap) + 30,
        days_to_month(11, leap) == days_to_month(10, leap) + 31,
        days_to_month(12, leap) == days_to_month(11, leap) + 30,
        days_to_month(13, leap) == (if leap {
            366int
        } else {
            365
        }),
{
    reveal_with_fuel(days_to_month, 14);
}

/// A year is a leap year if it can be divided by 4, but not where it ends a century
/// that is not the fourth.
pub proof fn law_leap_years(y: int)
    ensures
        y % 4 != 0 ==> !is_leap(y),
        y % 4 == 0 && y % 100 != 0 ==> is_leap(y),
        y % 100 == 0 && y % 400 != 0 ==> !is_leap(y),
        y % 400 == 0 ==> is_leap(y),
{
}

/// A time since 1970 lies in the minute of its date.
pub proof fn law_dates_are_of_their_times(d: Date, t: int)
    requires
        t >= 0,
        is_date(d, t),
    ensures
        ({
            let days = 365 * (d.year - 1970) + (d.year - 1969) / 4 - (d.year - 1901) / 100 + (d.year
                - 1601) / 400 + days_to_month(d.month as int, is_leap(d.year as int)) + d.day - 1;
            days * 86400 + d.hour * 3600 + d.minute * 60 <= t < days * 86400 + d.hour * 3600
                + d.minute * 60 + 60
        }),
        1 <= d.month <= 12 && d.day >= 1 && 0 <= d.hour < 24 && 0 <= d.minute < 60,
{
    law_days_of_years(d.year as int);
}

/// The names of the months.
pub proof fn law_month_names()
    ensures
        month_name(1) == "Jan"@ && month_name(2) == "Feb"@ && month_name(3) == "Mar"@
            && month_name(4) == "Apr"@ && month_name(5) == "May"@ && month_name(6) == "Jun"@
            && month_name(7) == "Jul"@ && month_name(8) == "Aug"@ && month_name(9) == "Sep"@
            && month_name(10) == "Oct"@ && month_name(11) == "Nov"@ && month_name(12) == "Dec"@,
{
}

/// A text that is padded has at least its width, ends or begins as it was, and nothing
/// but the padding is added.
pub proof fn law_padding(s: Seq<char>, c: char, width: int)
    ensures
        s.len() <= width ==> pad_left(s, c, width).len() == width && pad_right(s, width).len()
            == width,
        s.len() >= width ==> pad_left(s, c, width) == s && pad_right(s, width) == s,
        forall|i: int|
            0 <= i < width - s.len() ==> #[trigger] pad_left(s, c, width)[i] == c,
        s.is_suffix_of(pad_left(s, c, width)),
        s.is_prefix_of(pad_right(s, width)),
        forall|i: int|
            s.len() <= i < width ==> #[trigger] pad_right(s, width)[i] == ' ',
{
    let l = pad_left(s, c, width);
    let r = pad_right(s, width);
    assert(s =~= l.subrange(l.len() - s.len(), l.len() as int));
    assert(s =~= r.subrange(0, s.len() as int));
    if s.len() >= width {
        assert(l =~= s);
        assert(r =~= s);
    }
}

/// The letters of a mode: what the file is, by the four bits above the permissions, and
/// for its owner, its group and others whether they may read, write and execute it.
pub proof fn law_letters_of_modes(mode: u32)
    ensures
        mode_letters(mode).len() == 10,
        mode / 4096 % 16 == 4 ==> mode_letters(mode)[0] == 'd',
        mode / 4096 % 16 == 10 ==> mode_letters(mode)[0] == 'l',
        mode / 4096 % 16 != 4 && mode / 4096 % 16 != 10 ==> mode_letters(mode)[0] == '-',
        mode_letters(mode)[1] == 'r' <==> mode / 256 % 2 == 1,
        mode_letters(mode)[2] == 'w' <==> mode / 128 % 2 == 1,
        mode_letters(mode)[3] == 'x' <==> mode / 64 % 2 == 1,
        mode_letters(mode)[4] == 'r' <==> mode / 32 % 2 == 1,
        mode_letters(mode)[5] == 'w' <==> mode / 16 % 2 == 1,
        mode_letters(mode)[6] == 'x' <==> mode / 8 % 2 == 1,
        mode_letters(mode)[7] == 'r' <==> mode / 4 % 2 == 1,
        mode_letters(mode)[8] == 'w' <==> mode / 2 % 2 == 1,
        mode_letters(mode)[9] == 'x' <==> mode % 2 == 1,
        forall|i: int|
            0 < i < 10 && mode_letters(mode)[i] != '-' ==> #[trigger] mode_letters(mode)[i] == 'r'
                || mode_letters(mode)[i] == 'w' || mode_letters(mode)[i] == 'x',
{
}

/// Times of this year are listed with the time of day, others with the year.
pub proof fn law_listed_dates(d: Date, this_year: int)
    ensures
        d.year == this_year ==> listed_date(d, this_year) == month_name(d.month as int) + " "@
            + pad_left(numbers::decimal_int(d.day as int), ' ', 2) + " "@ + pad_left(
            numbers::decimal_int(d.hour as int),
            '0',
            2,
        ) + ":"@ + pad_left(numbers::decimal_int(d.minute as int), '0', 2),
        d.year != this_year ==> listed_date(d, this_year) == month_name(d.month as int) + " "@
            + pad_left(numbers::decimal_int(d.day as int), ' ', 2) + "  "@ + pad_left(
            numbers::decimal_int(d.year as int),
            ' ',
            4,
        ),
{
}

/// A file is listed by its mode, its links, its owner and group, its size, its date and
/// its name, in columns.
pub proof fn law_columns_of_listings(f: FileFacts, d: Date, this_year: int, name: Seq<char>)
    ensures
        listed(f, d, this_year, name) == mode_letters(f.mode) + " "@ + pad_left(
            numbers::decimal(f.nlink as nat),
            ' ',
            3,
        ) + " "@ + pad_right(numbers::decimal(f.uid as nat), 8) + " "@ + pad_right(
            numbers::decimal(f.gid as nat),
            8,
        ) + " "@ + pad_left(numbers::decimal(f.size as nat), ' ', 8) + " "@ + listed_date(
            d,
            this_year,
        ) + " "@ + name,
{
}

} // verus!
