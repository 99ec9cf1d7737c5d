//! How a process says that it has started.
use vstd::prelude::*;
use crate::models::configuration::{OutputLineMatcher, ProcessStartup};
use crate::pattern;
use crate::server::events;
use crate::server::server::{Server, ServerState};
use crate::text;

verus! {

/// How many of the first characters belong to a control sequence that has
/// begun: its parameters, and the character that ends it.
pub open spec fn sequence_length(s: Seq<char>) -> nat
    decreases s.len(),
{
    if s.len() == 0 {
        0
    } else if ' ' <= s[0] <= '?' {
        1 + sequence_length(s.skip(1))
    } else if '@' <= s[0] <= '~' {
        1
    } else {
        0
    }
}

pub proof fn lemma_sequence_length(s: Seq<char>)
    ensures
        sequence_length(s) <= s.len(),
    decreases s.len(),
{
    if s.len() > 0 && ' ' <= s[0] <= '?' {
        lemma_sequence_length(s.skip(1));
    }
}

/// A text without the control sequences of a terminal.
pub open spec fn stripped(s: Seq<char>) -> Seq<char>
    decreases s.len(),
{
    if s.len() == 0 {
        Seq::empty()
    } else if s.len() > 1 && s[0] == '\u{1b}' && s[1] == '[' {
        proof {
            lemma_sequence_length(s.skip(2));
        }
        stripped(s.skip(2 + sequence_length(s.skip(2)) as int))
    } else {
        seq![s[0]] + stripped(s.skip(1))
    }
}

fn sequence_end(a: &Vec<char>, from: usize) -> (r: usize)
    requires
        from <= a@.len(),
    ensures
        r == from + sequence_length(a@.skip(from as int)),
        r <= a@.len(),
{
    let mut i: usize = from;
    while i < a.len()
        invariant
            from <= i <= a.len(),
            sequence_length(a@.skip(from as int)) == (i - from) + sequence_length(
                a@.skip(i as int),
            ),
        decreases a.len() - i,
    {
        let c = a[i];
        assert(a@.skip(i as int)[0] == c);
        assert(a@.skip(i as int).skip(1) =~= a@.skip(i + 1));
        if ' ' <= c && c <= '?' {
            i = i + 1;
        } else if '@' <= c && c <= '~' {
            return i + 1;
        } else {
            return i;
        }
    }
    assert(a@.skip(i as int).len() == 0);
    i
}

/// A text without the control sequences of a terminal.
pub fn strip_ansi(line: &str) -> (r: String)
    ensures
        r@ == stripped(line@),
{
    let a = text::chars_of(line);
    let mut out: Vec<char> = Vec::new();
    let mut i: usize = 0;
    assert(line@.skip(0) =~= line@);
    assert(out@ + stripped(line@) =~= stripped(line@));
    while i < a.len()
        invariant
            i <= a.len(),
            a@ == line@,
            out@ + stripped(line@.skip(i as int)) == stripped(line@),
        decreases a.len() - i,
    {
        let ghost rest = line@.skip(i as int);
        assert(rest[0] == a@[i as int]);
        if i + 1 < a.len() && a[i] == '\u{1b}' && a[i + 1] == '[' {
            assert(rest[1] == a@[i + 1]);
            let end: usize = sequence_end(&a, i + 2);
            proof {
                assert(rest.skip(2) =~= line@.skip(i + 2));
                assert(rest.skip(2 + sequence_length(rest.skip(2)) as int) =~= line@.skip(
                    end as int,
                ));
            }
            i = end;
        } else {
            proof {
                assert(rest.skip(1) =~= line@.skip(i + 1));
                if rest.len() > 1 {
                    assert(rest[1] == a@[i + 1]);
                }
            }
            let ghost before = out@;
            out.push(a[i]);
            assert(out@ + stripped(line@.skip(i + 1)) =~= before + stripped(rest));
            i = i + 1;
        }
    }
    assert(out@ + stripped(line@.skip(i as int)) =~= out@);
    text::string_of(out.as_slice())
}

/// Whether a line is one that a matcher stands for.
pub open spec fn matched(m: OutputLineMatcher, line: Seq<char>) -> bool {
    match m.expression() {
        Some(p) => pattern::matches(p, line),
        None => match m.substring() {
            Some(s) => text::find(line, s) >= 0,
            None => false,
        },
    }
}

/// Whether a line says that a process has started.
pub open spec fn says_started(p: ProcessStartup, line: Seq<char>) -> bool {
    let seen = if p.strip_ansi {
        stripped(line)
    } else {
        line
    };
    exists|i: int| 0 <= i < p.done@.len() && matched(#[trigger] p.done@[i], seen)
}

/// Whether a line says that a process has started.
pub fn startup_done(p: &ProcessStartup, line: &str) -> (r: bool)
    ensures
        r == says_started(*p, line@),
{
    let seen = if p.strip_ansi {
        strip_ansi(line)
    } else {
        line.to_owned()
    };
    let mut i: usize = 0;
    while i < p.done.len()
        invariant
            i <= p.done.len(),
            seen@ == (if p.strip_ansi {
                stripped(line@)
            } else {
                line@
            }),
            forall|k: int| 0 <= k < i ==> !matched(#[trigger] p.done@[k], seen@),
        decreases p.done.len() - i,
    {
        if p.done[i].matches(seen.as_str()) {
            assert(matched(p.done@[i as int], seen@));
            return true;
        }
        i = i + 1;
    }
    false
}

impl Server {
    /// Looks at a line of the console: a server that is starting runs once its
    /// process says so.
    pub fn watch_startup(&mut self, line: &str)
        ensures
            ({
                let started = old(self).state == ServerState::Starting && says_started(
                    old(self).process_config.startup,
                    line@,
                );
                &&& started ==> final(self).same_but_outbox(
                    (Server { state: ServerState::Running, ..*old(self) }),
                ) && final(self).said() == old(self).said().push(events::status_frame("running"@))
                &&& !started ==> *final(self) == *old(self)
            }),
    {
        if self.state == ServerState::Starting && startup_done(&self.process_config.startup, line) {
            self.set_state(ServerState::Running);
        }
    }
}

/// A text without escape characters is not changed.
pub proof fn law_plain_lines_are_kept(s: Seq<char>)
    requires
        forall|i: int| 0 <= i < s.len() ==> #[trigger] s[i] != '\u{1b}',
    ensures
        stripped(s) == s,
    decreases s.len(),
{
    if s.len() > 0 {
        let t = s.skip(1);
        assert(s[0] != '\u{1b}');
        assert forall|i: int| 0 <= i < t.len() implies #[trigger] t[i] != '\u{1b}' by {
            assert(t[i] == s[i + 1]);
        }
        law_plain_lines_are_kept(t);
        assert(stripped(s) =~= s);
    } else {
        assert(stripped(s) =~= s);
    }
}

/// A control sequence disappears: the escape character, the bracket, its parameters
/// and the character that ends it. What is before and behind it stays.
pub proof fn law_sequences_are_stripped(
    before: Seq<char>,
    parameters: Seq<char>,
    end: char,
    behind: Seq<char>,
)
    requires
        forall|i: int| 0 <= i < before.len() ==> #[trigger] before[i] != '\u{1b}',
        forall|i: int| 0 <= i < parameters.len() ==> ' ' <= #[trigger] parameters[i] <= '?',
        '@' <= end <= '~',
    ensures
        stripped(before + seq!['\u{1b}', '['] + parameters + seq![end] + behind) == before
            + stripped(behind),
    decreases before.len(),
{
    let s = before + seq!['\u{1b}', '['] + parameters + seq![end] + behind;
    if before.len() == 0 {
        let t = parameters + seq![end] + behind;
        assert(s.skip(2) =~= t);
        lemma_parameters(parameters, end, behind);
        assert(s.skip(2 + parameters.len() as int + 1) =~= behind);
        assert(before + stripped(behind) =~= stripped(behind));
    } else {
        let rest = before.skip(1);
        assert forall|i: int| 0 <= i < rest.len() implies #[trigger] rest[i] != '\u{1b}' by {
            assert(rest[i] == before[i + 1]);
        }
        law_sequences_are_stripped(rest, parameters, end, behind);
        assert(s[0] == before[0]);
        assert(s.skip(1) =~= rest + seq!['\u{1b}', '['] + parameters + seq![end] + behind);
        assert(stripped(s) =~= before + stripped(behind));
    }
}

proof fn lemma_parameters(parameters: Seq<char>, end: char, behind: Seq<char>)
    requires
        forall|i: int| 0 <= i < parameters.len() ==> ' ' <= #[trigger] parameters[i] <= '?',
        '@' <= end <= '~',
    ensures
        sequence_length(parameters + seq![end] + behind) == parameters.len() + 1,
    decreases parameters.len(),
{
    let s = parameters + seq![end] + behind;
    if parameters.len() == 0 {
        assert(s[0] == end);
    } else {
        let rest = parameters.skip(1);
        assert(s[0] == parameters[0]);
        assert(s.skip(1) =~= rest + seq![end] + behind);
        assert forall|i: int| 0 <= i < rest.len() implies ' ' <= #[trigger] rest[i] <= '?' by {
            assert(rest[i] == parameters[i + 1]);
        }
        lemma_parameters(rest, end, behind);
    }
}

/// A process has started once a line matches one of the expressions, or holds one of
/// the texts, that are configured for it; control sequences are left out of
/// consideration where that is configured.
pub proof fn law_what_says_started(p: ProcessStartup, i: int, line: Seq<char>)
    requires
        0 <= i < p.done@.len(),
    ensures
        ({
            let seen = if p.strip_ansi {
                stripped(line)
            } else {
                line
            };
            &&& p.done@[i].expression() matches Some(e) ==> pattern::matches(e, seen)
                ==> says_started(p, line)
            &&& p.done@[i].expression() is None ==> (p.done@[i].substring() matches Some(s) ==> (
            exists|at: int| 0 <= at <= seen.len() && s.is_prefix_of(#[trigger] seen.skip(at)))
                ==> says_started(p, line))
            &&& p.done@.len() == 1 && says_started(p, line) ==> matched(p.done@[i], seen)
        }),
{
    let seen = if p.strip_ansi {
        stripped(line)
    } else {
        line
    };
    if let Some(s) = p.done@[i].substring() {
        text::law_find(seen, s);
    }
    if p.done@[i].expression() is Some && pattern::matches(p.done@[i].expression()->0, seen) {
        assert(matched(p.done@[i], seen));
    }
    if p.done@[i].expression() is None && p.done@[i].substring() is Some && (exists|at: int|
        0 <= at <= seen.len() && p.done@[i].substring()->0.is_prefix_of(#[trigger] seen.skip(at))) {
        assert(matched(p.done@[i], seen));
    }
    if p.done@.len() == 1 && says_started(p, line) {
        let k = choose|k: int| 0 <= k < p.done@.len() && matched(#[trigger] p.done@[k], seen);
        assert(k == i);
    }
}

/// A line matches a configured text exactly if the text occurs in it.
pub proof fn law_lines_match_texts(m: OutputLineMatcher, line: Seq<char>, s: Seq<char>)
    requires
        m.expression() is None,
        m.substring() == Some(s),
    ensures
        matched(m, line) <==> exists|at: int|
            0 <= at <= line.len() && s.is_prefix_of(#[trigger] line.skip(at)),
{
    text::law_find(line, s);
}

} // verus!
