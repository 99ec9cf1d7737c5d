//! Unix paths as text.
use vstd::prelude::*;
use crate::text;

verus! {

/// `rel` below `base`; an absolute `rel` stands for itself.
pub open spec fn join(base: Seq<char>, rel: Seq<char>) -> Seq<char> {
    if rel.len() > 0 && rel[0] == '/' {
        rel
    } else if base.len() == 0 {
        rel
    } else if base.last() == '/' {
        base + rel
    } else {
        base + "/"@ + rel
    }
}

/// The pieces between slashes that are steps of a path: no empty one, and `.`
/// only where it opens a relative path.
pub open spec fn steps(pieces: Seq<Seq<char>>, lead: bool) -> Seq<Seq<char>>
    decreases pieces.len(),
{
    if pieces.len() == 0 {
        Seq::empty()
    } else {
        let rest = steps(pieces.skip(1), false);
        if pieces[0].len() == 0 || (pieces[0] == "."@ && !lead) {
            rest
        } else {
            seq![pieces[0]] + rest
        }
    }
}

/// Whether a path starts at the root.
pub open spec fn is_absolute(p: Seq<char>) -> bool {
    p.len() > 0 && p[0] == '/'
}

/// The components of a path, the root written `/`.
pub open spec fn components(p: Seq<char>) -> Seq<Seq<char>> {
    if is_absolute(p) {
        seq!["/"@] + steps(text::split_on(p, '/'), false)
    } else {
        steps(text::split_on(p, '/'), true)
    }
}

/// Whether `p` is `base` or lies below it, component by component.
pub open spec fn starts_with(p: Seq<char>, base: Seq<char>) -> bool {
    components(base).is_prefix_of(components(p))
}

/// `rel` below `base` (`Path::join`).
pub fn join_path(base: &str, rel: &str) -> (r: String)
    ensures
        r@ == join(base@, rel@),
{
    let b = text::chars_of(base);
    let c = text::chars_of(rel);
    if c.len() > 0 && c[0] == '/' {
        rel.to_owned()
    } else if b.len() == 0 {
        rel.to_owned()
    } else if b[b.len() - 1] == '/' {
        text::cat(base, rel)
    } else {
        text::cat3(base, "/", rel)
    }
}

/// The components of a path (`Path::components`).
pub fn components_of(p: &str) -> (r: Vec<String>)
    ensures
        text::texts(r@) == components(p@),
{
    let pieces = text::split_str(p, '/');
    let ghost all = text::texts(pieces@);
    let c = text::chars_of(p);
    let absolute = c.len() > 0 && c[0] == '/';
    let mut out: Vec<String> = Vec::new();
    if absolute {
        out.push("/".to_owned());
        assert(text::texts(out@) =~= seq!["/"@]);
    }
    let ghost head = text::texts(out@);
    let mut i: usize = 0;
    assert(all.skip(0) =~= all);
    while i < pieces.len()
        invariant
            i <= pieces.len(),
            all == text::texts(pieces@),
            text::texts(out@) + steps(all.skip(i as int), !absolute && i == 0) == head + steps(
                all,
                !absolute,
            ),
        decreases pieces.len() - i,
    {
        let ghost before = text::texts(out@);
        let ghost rest = all.skip(i as int);
        assert(rest[0] == pieces@[i as int]@);
        assert(rest.skip(1) =~= all.skip(i + 1));
        let piece = pieces[i].as_str();
        if !(piece.is_empty() || (text::same(piece, ".") && !(!absolute && i == 0))) {
            out.push(pieces[i].clone());
            assert(text::texts(out@) =~= before.push(piece@));
            assert(text::texts(out@) + steps(all.skip(i + 1), false) =~= before + steps(
                rest,
                !absolute && i == 0,
            ));
        }
        i = i + 1;
    }
    assert(text::texts(out@) + steps(all.skip(i as int), false) =~= text::texts(out@));
    if !absolute {
        assert(head + steps(all, true) =~= steps(all, true));
    }
    out
}

/// Whether `p` is `base` or lies below it (`Path::starts_with`).
pub fn is_below(p: &str, base: &str) -> (r: bool)
    ensures
        r == starts_with(p@, base@),
{
    let a = components_of(p);
    let b = components_of(base);
    let ghost x = text::texts(a@);
    let ghost y = text::texts(b@);
    if b.len() > a.len() {
        return false;
    }
    let mut i: usize = 0;
    while i < b.len()
        invariant
            i <= b.len() <= a.len(),
            x == text::texts(a@),
            y == text::texts(b@),
            x == components(p@),
            y == components(base@),
            forall|k: int| 0 <= k < i ==> x[k] == y[k],
        decreases b.len() - i,
    {
        assert(x[i as int] == a@[i as int]@ && y[i as int] == b@[i as int]@);
        if !text::same(a[i].as_str(), b[i].as_str()) {
            assert(x.subrange(0, y.len() as int)[i as int] == x[i as int]);
            return false;
        }
        i = i + 1;
    }
    assert(y =~= x.subrange(0, y.len() as int));
    true
}

/// A path lies below itself, and below whatever something above it lies below.
pub proof fn law_starts_with(p: Seq<char>, q: Seq<char>, r: Seq<char>)
    ensures
        starts_with(p, p),
        starts_with(p, q) && starts_with(q, r) ==> starts_with(p, r),
{
    let a = components(p);
    assert(a =~= a.subrange(0, a.len() as int));
    if starts_with(p, q) && starts_with(q, r) {
        let b = components(q);
        let c = components(r);
        assert(c =~= a.subrange(0, c.len() as int)) by {
            assert forall|i: int| 0 <= i < c.len() implies c[i] == a[i] by {
                assert(c[i] == b.subrange(0, c.len() as int)[i]);
                assert(b[i] == a.subrange(0, b.len() as int)[i]);
            }
        }
    }
}

proof fn lemma_steps_cat(a: Seq<Seq<char>>, b: Seq<Seq<char>>, lead: bool)
    requires
        a.len() > 0,
    ensures
        steps(a + b, lead) == steps(a, lead) + steps(b, false),
    decreases a.len(),
{
    let ab = a + b;
    if a.len() == 1 {
        assert(ab.skip(1) =~= b);
        assert(steps(a.skip(1), false) =~= Seq::<Seq<char>>::empty());
    } else {
        lemma_steps_cat(a.skip(1), b, false);
        assert(ab.skip(1) =~= a.skip(1) + b);
    }
    assert(ab[0] == a[0]);
    assert(steps(ab, lead) =~= steps(a, lead) + steps(b, false));
}

/// A name that goes somewhere: not empty, no dot, and without a slash.
pub open spec fn is_step(n: Seq<char>) -> bool {
    &&& n.len() > 0
    &&& n != "."@
    &&& forall|i: int| 0 <= i < n.len() ==> #[trigger] n[i] != '/'
}

/// A name behind a path is one more component; a slash or a dot behind it is none.
pub proof fn law_components(p: Seq<char>, n: Seq<char>)
    requires
        p.len() > 0,
        is_step(n),
    ensures
        components(p + seq!['/'] + n) == components(p).push(n),
        components(p + seq!['/']) == components(p),
        components(p + seq!['/', '.']) == components(p),
        components(n) == seq![n],
        components(seq!['/'] + n) == seq!["/"@, n],
        components("/"@) == seq!["/"@],
{
    reveal_strlit("/");
    reveal_strlit(".");
    let none = Seq::<char>::empty();
    let lead = !is_absolute(p);
    let a = text::split_on(p, '/');
    text::lemma_split_nonempty(p, '/');
    text::law_split_on(n, '/', none);
    text::law_split_on(none, '/', n);
    text::law_split_on("."@, '/', none);
    let nothing = Seq::<Seq<char>>::empty();
    assert(forall|s: Seq<char>| seq![s].skip(1) =~= nothing);
    assert(steps(nothing, false) =~= nothing);
    assert(steps(seq![n], false) =~= seq![n]) by {
        assert(seq![n].skip(1) =~= nothing);
    }
    assert(steps(seq![n], true) =~= seq![n]) by {
        assert(seq![n].skip(1) =~= nothing);
    }
    assert(steps(seq![none], false) =~= nothing) by {
        assert(seq![none].skip(1) =~= nothing);
    }
    assert(steps(seq!["."@], false) =~= nothing) by {
        assert(seq!["."@].skip(1) =~= nothing);
    }
    // a name behind
    text::law_split_cat(p, '/', n);
    lemma_steps_cat(a, seq![n], lead);
    lemma_steps_cat(a, seq![n], false);
    assert((p + seq!['/'] + n)[0] == p[0]);
    assert(components(p + seq!['/'] + n) =~= components(p).push(n));
    // a slash behind
    text::law_split_cat(p, '/', none);
    assert(p + seq!['/'] + none =~= p + seq!['/']);
    lemma_steps_cat(a, seq![none], lead);
    lemma_steps_cat(a, seq![none], false);
    assert((p + seq!['/'])[0] == p[0]);
    assert(components(p + seq!['/']) =~= components(p));
    // a dot behind
    text::law_split_cat(p, '/', "."@);
    assert(p + seq!['/'] + "."@ =~= p + seq!['/', '.']);
    lemma_steps_cat(a, seq!["."@], lead);
    lemma_steps_cat(a, seq!["."@], false);
    assert((p + seq!['/', '.'])[0] == p[0]);
    assert(components(p + seq!['/', '.']) =~= components(p));
    // alone
    assert(n[0] != '/');
    assert(components(n) =~= seq![n]);
    assert(none + seq!['/'] + n =~= seq!['/'] + n);
    assert(none + seq!['/'] + none =~= "/"@);
    text::law_split_on(none, '/', none);
    lemma_steps_cat(seq![none], seq![n], false);
    lemma_steps_cat(seq![none], seq![none], false);
    assert(components(seq!['/'] + n) =~= seq!["/"@, n]);
    assert(components("/"@) =~= seq!["/"@]);
}

/// A path lies below another name by name: what only begins with the same letters does
/// not.
pub proof fn law_below_by_names(p: Seq<char>, n: Seq<char>, m: Seq<char>, more: Seq<char>)
    requires
        p.len() > 0,
        is_step(n),
        is_step(m),
        is_step(more),
    ensures
        starts_with(p + seq!['/'] + n, p),
        starts_with(p + seq!['/'] + n + seq!['/'] + more, p + seq!['/'] + n),
        !starts_with(p, p + seq!['/'] + n),
        n != m ==> !starts_with(p + seq!['/'] + n, p + seq!['/'] + m),
        n != m ==> !starts_with(p + seq!['/'] + n + seq!['/'] + more, p + seq!['/'] + m),
{
    let a = p + seq!['/'] + n;
    let b = p + seq!['/'] + m;
    let c = a + seq!['/'] + more;
    law_components(p, n);
    law_components(p, m);
    law_components(a, more);
    let x = components(p);
    assert(x =~= x.push(n).subrange(0, x.len() as int));
    assert(x.push(n) =~= x.push(n).push(more).subrange(0, x.len() as int + 1));
    if n != m {
        let k = x.len() as int;
        if x.push(m).is_prefix_of(x.push(n)) {
            assert(x.push(m)[k] == x.push(n).subrange(0, k + 1)[k]);
        }
        if x.push(m).is_prefix_of(x.push(n).push(more)) {
            assert(x.push(m)[k] == x.push(n).push(more).subrange(0, k + 1)[k]);
        }
    }
}

/// A path is joined to another with one slash between them; one from the root stands
/// for itself.
pub proof fn law_join(base: Seq<char>, rel: Seq<char>)
    requires
        rel.len() > 0 && rel[0] != '/',
    ensures
        base.len() > 0 && base.last() != '/' ==> join(base, rel) == base + "/"@ + rel && join(
            base + "/"@,
            rel,
        ) == base + "/"@ + rel,
        join(Seq::empty(), rel) == rel,
        join(base, "/"@ + rel) == "/"@ + rel,
{
    reveal_strlit("/");
}

} // verus!
