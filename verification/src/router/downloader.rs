//! Downloads into servers that are under way.
use vstd::prelude::*;
use crate::text;

verus! {

/// How many downloads a server may have at a time.
pub const MAX_PER_SERVER: usize = 3;

/// One download.
#[derive(Debug)]
pub struct Download {
    pub identifier: String,
    pub server_uuid: u128,
    pub url: String,
    pub file_name: String,
    pub directory: String,
    /// 0 to 100
    pub percent: u64,
}

/// What is told of a download.
#[derive(Debug)]
pub struct DownloadInfo {
    pub identifier: String,
    /// 0 to 100
    pub percent: u64,
}

/// A download by its contents.
pub struct DownloadView {
    pub identifier: Seq<char>,
    pub server: u128,
    pub url: Seq<char>,
    pub file_name: Seq<char>,
    pub directory: Seq<char>,
    pub percent: u64,
}

impl View for Download {
    type V = DownloadView;

    open spec fn view(&self) -> DownloadView {
        DownloadView {
            identifier: self.identifier@,
            server: self.server_uuid,
            url: self.url@,
            file_name: self.file_name@,
            directory: self.directory@,
            percent: self.percent,
        }
    }
}

impl Download {
    /// A download that has not begun.
    pub fn new(
        identifier: String,
        server_uuid: u128,
        url: String,
        file_name: String,
        directory: String,
    ) -> (r: Self)
        ensures
            r@ == (DownloadView {
                identifier: identifier@,
                server: server_uuid,
                url: url@,
                file_name: file_name@,
                directory: directory@,
                percent: 0,
            }),
    {
        Download { identifier, server_uuid, url, file_name, directory, percent: 0 }
    }

    /// How far the download is, in percent.
    pub fn progress(&self) -> (r: u64)
        ensures
            r == self@.percent,
    {
        self.percent
    }
}

/// All downloads that are under way.
#[derive(Debug)]
pub struct Downloads {
    list: Vec<Download>,
}

pub open spec fn downloads_view(v: Seq<Download>) -> Seq<DownloadView> {
    v.map_values(|d: Download| d@)
}

/// The downloads without the one with this name.
pub open spec fn without(v: Seq<DownloadView>, id: Seq<char>) -> Seq<DownloadView>
    decreases v.len(),
{
    if v.len() == 0 {
        Seq::empty()
    } else if v.last().identifier == id {
        without(v.drop_last(), id)
    } else {
        without(v.drop_last(), id).push(v.last())
    }
}

/// The downloads of a server, or those of all others.
pub open spec fn of_server(v: Seq<DownloadView>, server: u128, own: bool) -> Seq<DownloadView>
    decreases v.len(),
{
    if v.len() == 0 {
        Seq::empty()
    } else if (v.last().server == server) == own {
        of_server(v.drop_last(), server, own).push(v.last())
    } else {
        of_server(v.drop_last(), server, own)
    }
}

pub open spec fn infos_view(v: Seq<DownloadInfo>) -> Seq<(Seq<char>, u64)> {
    v.map_values(|i: DownloadInfo| (i.identifier@, i.percent))
}

pub open spec fn infos_of(v: Seq<DownloadView>) -> Seq<(Seq<char>, u64)> {
    v.map_values(|d: DownloadView| (d.identifier, d.percent))
}

impl View for Downloads {
    type V = Seq<DownloadView>;

    closed spec fn view(&self) -> Seq<DownloadView> {
        downloads_view(self.list@)
    }
}

impl Downloads {
    pub fn new() -> (r: Self)
        ensures
            r@ == Seq::<DownloadView>::empty(),
    {
        let r = Downloads { list: Vec::new() };
        assert(r@ =~= Seq::empty());
        r
    }

    /// Adds a download, in place of one with the same name.
    pub fn track(&mut self, d: Download)
        ensures
            final(self)@ == without(old(self)@, d@.identifier).push(d@),
    {
        self.untrack(d.identifier.as_str());
        let ghost before = self.list@;
        let ghost shown = d@;
        self.list.push(d);
        assert(downloads_view(self.list@) =~= downloads_view(before).push(shown));
    }

    /// Forgets a download.
    pub fn untrack(&mut self, identifier: &str)
        ensures
            final(self)@ == without(old(self)@, identifier@),
    {
        let mut all: Vec<Download> = Vec::new();
        std::mem::swap(&mut all, &mut self.list);
        let ghost v = downloads_view(all@);
        let mut kept: Vec<Download> = Vec::new();
        let n: usize = all.len();
        let mut i: usize = 0;
        assert(all@ =~= old(self).list@.skip(0));
        assert(downloads_view(kept@) =~= without(v.take(0), identifier@));
        while i < n
            invariant
                i <= n,
                n == v.len(),
                v == downloads_view(old(self).list@),
                all@ == old(self).list@.skip(i as int),
                downloads_view(kept@) == without(v.take(i as int), identifier@),
            decreases n - i,
        {
            let d = all.remove(0);
            let ghost shown = d@;
            let ghost before = kept@;
            proof {
                assert(d == old(self).list@[i as int]);
                assert(all@ =~= old(self).list@.skip(i + 1));
                assert(v.take(i + 1).drop_last() =~= v.take(i as int));
                assert(v.take(i + 1).last() == shown);
            }
            if !text::same(d.identifier.as_str(), identifier) {
                kept.push(d);
                assert(downloads_view(kept@) =~= downloads_view(before).push(shown));
            }
            i = i + 1;
        }
        assert(v.take(i as int) =~= v);
        self.list = kept;
    }

    /// What is told of the downloads of a server.
    pub fn by_server(&self, server: u128) -> (r: Vec<DownloadInfo>)
        ensures
            infos_view(r@) == infos_of(of_server(self@, server, true)),
    {
        let ghost v = downloads_view(self.list@);
        let mut out: Vec<DownloadInfo> = Vec::new();
        let mut i: usize = 0;
        assert(infos_view(out@) =~= infos_of(of_server(v.take(0), server, true)));
        while i < self.list.len()
            invariant
                i <= self.list.len(),
                v == downloads_view(self.list@),
                infos_view(out@) == infos_of(of_server(v.take(i as int), server, true)),
            decreases self.list.len() - i,
        {
            let ghost before = out@;
            assert(v.take(i + 1).drop_last() =~= v.take(i as int));
            assert(v.take(i + 1).last() == self.list@[i as int]@);
            if self.list[i].server_uuid == server {
                let info = DownloadInfo {
                    identifier: self.list[i].identifier.clone(),
                    percent: self.list[i].percent,
                };
                let ghost shown = (info.identifier@, info.percent);
                out.push(info);
                proof {
                    assert(infos_view(out@) =~= infos_view(before).push(shown));
                    assert(infos_of(of_server(v.take(i + 1), server, true)) =~= infos_of(
                        of_server(v.take(i as int), server, true),
                    ).push(shown));
                }
            }
            i = i + 1;
        }
        assert(v.take(i as int) =~= v);
        out
    }

    /// How many downloads a server has.
    pub fn count_for_server(&self, server: u128) -> (r: usize)
        ensures
            r == of_server(self@, server, true).len(),
    {
        let v = self.by_server(server);
        proof {
            assert(infos_view(v@).len() == v@.len());
            assert(infos_of(of_server(self@, server, true)).len() == of_server(
                self@,
                server,
                true,
            ).len());
        }
        v.len()
    }

    /// Whether there is a download with this name, of this server.
    pub fn by_id(&self, identifier: &str, server: u128) -> (r: bool)
        ensures
            r == exists|i: int|
                0 <= i < self@.len() && (#[trigger] self@[i]).identifier == identifier@
                    && self@[i].server == server,
    {
        let mut i: usize = 0;
        while i < self.list.len()
            invariant
                i <= self.list.len(),
                forall|j: int|
                    0 <= j < i ==> !((#[trigger] self@[j]).identifier == identifier@
                        && self@[j].server == server),
            decreases self.list.len() - i,
        {
            assert(self@[i as int] == self.list@[i as int]@);
            if text::same(self.list[i].identifier.as_str(), identifier) && self.list[i].server_uuid
                == server {
                return true;
            }
            i = i + 1;
        }
        false
    }

    /// Notes how far a download is; never beyond the end.
    pub fn set_progress(&mut self, identifier: &str, percent: u64)
        ensures
            final(self)@.len() == old(self)@.len(),
            forall|i: int|
                0 <= i < old(self)@.len() ==> #[trigger] final(self)@[i] == (if old(
                    self,
                )@[i].identifier == identifier@ {
                    DownloadView {
                        percent: if percent > 100 {
                            100
                        } else {
                            percent
                        },
                        ..old(self)@[i]
                    }
                } else {
                    old(self)@[i]
                }),
    {
        let p: u64 = if percent > 100 {
            100
        } else {
            percent
        };
        let ghost start = self.list@;
        let n: usize = self.list.len();
        let mut i: usize = 0;
        while i < n
            invariant
                i <= n,
                n == self.list@.len(),
                start == old(self).list@,
                start.len() == n,
                p == (if percent > 100 {
                    100
                } else {
                    percent
                }),
                forall|j: int| i <= j < n ==> #[trigger] self.list@[j] == start[j],
                forall|j: int|
                    0 <= j < i ==> (#[trigger] self.list@[j])@ == (if start[j]@.identifier
                        == identifier@ {
                        DownloadView { percent: p, ..start[j]@ }
                    } else {
                        start[j]@
                    }),
            decreases n - i,
        {
            if text::same(self.list[i].identifier.as_str(), identifier) {
                let ghost before = self.list@;
                let mut d = self.list.remove(i);
                d.percent = p;
                self.list.insert(i, d);
                assert(self.list@ =~= before.update(i as int, d));
            }
            i = i + 1;
        }
        assert forall|j: int| 0 <= j < old(self)@.len() implies #[trigger] self@[j] == (if old(
            self,
        )@[j].identifier == identifier@ {
            DownloadView {
                percent: if percent > 100 {
                    100
                } else {
                    percent
                },
                ..old(self)@[j]
            }
        } else {
            old(self)@[j]
        }) by {
            assert(self@[j] == self.list@[j]@);
            assert(old(self)@[j] == start[j]@);
        }
    }

    /// Forgets all downloads of a server.
    pub fn cancel_for_server(&mut self, server: u128)
        ensures
            final(self)@ == of_server(old(self)@, server, false),
    {
        let mut all: Vec<Download> = Vec::new();
        std::mem::swap(&mut all, &mut self.list);
        let ghost v = downloads_view(all@);
        let mut kept: Vec<Download> = Vec::new();
        let n: usize = all.len();
        let mut i: usize = 0;
        assert(all@ =~= old(self).list@.skip(0));
        assert(downloads_view(kept@) =~= of_server(v.take(0), server, false));
        while i < n
            invariant
                i <= n,
                n == v.len(),
                v == downloads_view(old(self).list@),
                all@ == old(self).list@.skip(i as int),
                downloads_view(kept@) == of_server(v.take(i as int), server, false),
            decreases n - i,
        {
            let d = all.remove(0);
            let ghost shown = d@;
            let ghost before = kept@;
            proof {
                assert(d == old(self).list@[i as int]);
                assert(all@ =~= old(self).list@.skip(i + 1));
                assert(v.take(i + 1).drop_last() =~= v.take(i as int));
                assert(v.take(i + 1).last() == shown);
            }
            if d.server_uuid != server {
                kept.push(d);
                assert(downloads_view(kept@) =~= downloads_view(before).push(shown));
            }
            i = i + 1;
        }
        assert(v.take(i as int) =~= v);
        self.list = kept;
    }
}

/// Once its downloads were cancelled a server has none, and those of other
/// servers stay.
pub proof fn law_cancelled_downloads_are_gone(v: Seq<DownloadView>, server: u128, other: u128)
    ensures
        of_server(of_server(v, server, false), server, true).len() == 0,
        other != server ==> of_server(of_server(v, server, false), other, true) == of_server(
            v,
            other,
            true,
        ),
    decreases v.len(),
{
    if v.len() > 0 {
        law_cancelled_downloads_are_gone(v.drop_last(), server, other);
        let rest = of_server(v.drop_last(), server, false);
        if v.last().server != server {
            assert(rest.push(v.last()).drop_last() =~= rest);
        }
    }
}

proof fn lemma_fewer_without(v: Seq<DownloadView>, id: Seq<char>, server: u128)
    ensures
        of_server(without(v, id), server, true).len() <= of_server(v, server, true).len(),
    decreases v.len(),
{
    if v.len() > 0 {
        lemma_fewer_without(v.drop_last(), id, server);
        let rest = without(v.drop_last(), id);
        assert(rest.push(v.last()).drop_last() =~= rest);
    }
}

/// No server gets more downloads than it may have: one that had room for
/// another has at most that many with it, and no other server has more than
/// before.
pub proof fn law_downloads_are_capped(v: Seq<DownloadView>, d: DownloadView, other: u128)
    requires
        of_server(v, d.server, true).len() < MAX_PER_SERVER,
    ensures
        of_server(without(v, d.identifier).push(d), d.server, true).len() <= MAX_PER_SERVER,
        other != d.server ==> of_server(without(v, d.identifier).push(d), other, true).len()
            <= of_server(v, other, true).len(),
{
    lemma_fewer_without(v, d.identifier, d.server);
    lemma_fewer_without(v, d.identifier, other);
    let rest = without(v, d.identifier);
    assert(rest.push(d).drop_last() =~= rest);
}

/// A download that is taken out is the one that was named; the others stay, in order.
pub proof fn law_others_go_on(v: Seq<DownloadView>, w: Seq<DownloadView>, id: Seq<char>, d: DownloadView)
    ensures
        without(v + w, id) == without(v, id) + without(w, id),
        d.identifier != id ==> without(seq![d], id) == seq![d],
        d.identifier == id ==> without(seq![d], id).len() == 0,
        without(v, id).contains(d) <==> v.contains(d) && d.identifier != id,
    decreases w.len(),
{
    let none = Seq::<DownloadView>::empty();
    assert(seq![d].drop_last() =~= none);
    assert(without(seq![d].drop_last(), id) =~= none);
    if d.identifier != id {
        assert(without(seq![d], id) =~= seq![d]);
    }
    if w.len() == 0 {
        assert(v + w =~= v);
        assert(without(v, id) + without(w, id) =~= without(v, id));
    } else {
        law_others_go_on(v, w.drop_last(), id, d);
        assert((v + w).drop_last() =~= v + w.drop_last());
        assert(without(v + w, id) =~= without(v, id) + without(w, id));
    }
    lemma_without_keeps(v, id, d);
}

proof fn lemma_without_keeps(v: Seq<DownloadView>, id: Seq<char>, d: DownloadView)
    ensures
        without(v, id).contains(d) <==> v.contains(d) && d.identifier != id,
    decreases v.len(),
{
    if v.len() > 0 {
        let rest = v.drop_last();
        lemma_without_keeps(rest, id, d);
        let a = without(rest, id);
        let b = without(v, id);
        assert(v =~= rest.push(v.last()));
        lemma_contains_push(rest, v.last(), d);
        if v.last().identifier != id {
            lemma_contains_push(a, v.last(), d);
        }
    }
}

proof fn lemma_contains_push(v: Seq<DownloadView>, e: DownloadView, d: DownloadView)
    ensures
        v.push(e).contains(d) <==> v.contains(d) || d == e,
{
    let w = v.push(e);
    if v.contains(d) {
        let i = choose|i: int| 0 <= i < v.len() && v[i] == d;
        assert(w[i] == d);
    }
    if d == e {
        assert(w[v.len() as int] == d);
    }
    if w.contains(d) && d != e {
        let i = choose|i: int| 0 <= i < w.len() && w[i] == d;
        assert(v[i] == d);
    }
}

/// A server is shown its own downloads, all of them and no others, each by its name
/// and how far it is.
pub proof fn law_servers_see_their_own(v: Seq<DownloadView>, server: u128, own: bool, d: DownloadView)
    ensures
        of_server(v, server, own).contains(d) <==> v.contains(d) && (d.server == server) == own,
        infos_of(v).len() == v.len(),
        forall|i: int|
            0 <= i < v.len() ==> #[trigger] infos_of(v)[i] == (v[i].identifier, v[i].percent),
    decreases v.len(),
{
    if v.len() > 0 {
        let rest = v.drop_last();
        law_servers_see_their_own(rest, server, own, d);
        assert(v =~= rest.push(v.last()));
        lemma_contains_push(rest, v.last(), d);
        lemma_contains_push(of_server(rest, server, own), v.last(), d);
    }
}

} // verus!
