//! The server's authoritative directory: one entry per joined user, keyed
//! both by user identity and by the connection token the user joined on.
//! Entries carry the advertised endpoint and the last heartbeat time; the
//! sweep evicts entries whose heartbeat is older than the timeout window.

use vstd::prelude::*;

verus! {

use crate::messages::PeerInfo;

/// The mathematical value of one directory entry.
pub struct DirEntryView {
    pub token: u64,
    pub user_id: Seq<char>,
    pub address: Seq<char>,
    pub port: u16,
    pub last_heartbeat: u64,
}

/// One directory entry: the connection token and the user it belongs to.
pub struct DirEntry {
    pub token: u64,
    pub info: PeerInfo,
}

impl View for DirEntry {
    type V = DirEntryView;

    open spec fn view(&self) -> DirEntryView {
        DirEntryView {
            token: self.token,
            user_id: self.info.user_id@,
            address: self.info.address@,
            port: self.info.port,
            last_heartbeat: self.info.last_heartbeat,
        }
    }
}

impl DirEntry {
    pub fn duplicate(&self) -> (r: DirEntry)
        ensures
            r@ == self@,
    {
        DirEntry { token: self.token, info: self.info.duplicate() }
    }
}

/// Two distinct entries of a well-formed directory differ in both keys.
pub proof fn lemma_dir_wf_pair(d: Seq<DirEntryView>, i: int, j: int)
    requires
        dir_wf(d),
        0 <= i < j < d.len(),
    ensures
        d[i].token != d[j].token,
        d[i].user_id != d[j].user_id,
{
    assert(d[i].token != d[j].token && d[i].user_id != d[j].user_id);
}

/// No two entries share a token, and no two share a user.
pub open spec fn dir_wf(d: Seq<DirEntryView>) -> bool {
    forall|i: int, j: int|
        0 <= i < j < d.len() ==> #[trigger] d[i].token != #[trigger] d[j].token && d[i].user_id
            != d[j].user_id
}

pub open spec fn remove_user_spec(d: Seq<DirEntryView>, u: Seq<char>) -> Seq<DirEntryView>
    decreases d.len(),
{
    if d.len() == 0 {
        Seq::empty()
    } else if d[0].user_id == u {
        remove_user_spec(d.skip(1), u)
    } else {
        seq![d[0]] + remove_user_spec(d.skip(1), u)
    }
}

pub open spec fn remove_token_spec(d: Seq<DirEntryView>, t: u64) -> Seq<DirEntryView>
    decreases d.len(),
{
    if d.len() == 0 {
        Seq::empty()
    } else if d[0].token == t {
        remove_token_spec(d.skip(1), t)
    } else {
        seq![d[0]] + remove_token_spec(d.skip(1), t)
    }
}

/// The entry with a fresh heartbeat stamp.
pub open spec fn stamped(e: DirEntryView, now: u64) -> DirEntryView {
    DirEntryView { last_heartbeat: now, ..e }
}

/// Refreshing by token: the one entry on that token gets the new stamp.
pub open spec fn refresh_spec(d: Seq<DirEntryView>, t: u64, now: u64) -> Seq<DirEntryView> {
    Seq::new(
        d.len(),
        |i: int|
            if d[i].token == t {
                stamped(d[i], now)
            } else {
                d[i]
            },
    )
}

/// An entry whose last heartbeat predates now minus the window.
pub open spec fn stale(e: DirEntryView, now: u64, window: u64) -> bool {
    now > window && e.last_heartbeat < now - window
}

pub open spec fn evict_spec(d: Seq<DirEntryView>, now: u64, window: u64) -> Seq<DirEntryView>
    decreases d.len(),
{
    if d.len() == 0 {
        Seq::empty()
    } else if stale(d[0], now, window) {
        evict_spec(d.skip(1), now, window)
    } else {
        seq![d[0]] + evict_spec(d.skip(1), now, window)
    }
}

pub open spec fn evicted_tokens_spec(d: Seq<DirEntryView>, now: u64, window: u64) -> Seq<u64>
    decreases d.len(),
{
    if d.len() == 0 {
        Seq::empty()
    } else if stale(d[0], now, window) {
        seq![d[0].token] + evicted_tokens_spec(d.skip(1), now, window)
    } else {
        evicted_tokens_spec(d.skip(1), now, window)
    }
}

/// Removing first by user, then by token: what remains names neither, is
/// still well formed, and consists of entries of the original directory.
pub proof fn lemma_remove_both_props(d: Seq<DirEntryView>, u: Seq<char>, t: u64)
    ensures
        ({
            let base = remove_token_spec(remove_user_spec(d, u), t);
            &&& forall|k: int|
                0 <= k < base.len() ==> #[trigger] base[k].user_id != u && base[k].token != t
            &&& forall|k: int|
                0 <= k < base.len() ==> exists|i: int| 0 <= i < d.len() && #[trigger] base[k] == d[i]
            &&& (dir_wf(d) ==> dir_wf(base))
        }),
{
    lemma_remove_user_spec_props(d, u);
    lemma_remove_token_spec_props(remove_user_spec(d, u), t);
    let mid = remove_user_spec(d, u);
    let base = remove_token_spec(mid, t);
    assert forall|k: int| 0 <= k < base.len() implies #[trigger] base[k].user_id != u && base[k].token
        != t by {
        let i0 = choose|i: int| 0 <= i < mid.len() && base[k] == mid[i];
        assert(mid[i0].user_id != u);
    }
    assert forall|k: int| 0 <= k < base.len() implies exists|i: int|
        0 <= i < d.len() && #[trigger] base[k] == d[i] by {
        let i0 = choose|i: int| 0 <= i < mid.len() && base[k] == mid[i];
        let i1 = choose|i: int| 0 <= i < d.len() && mid[i0] == d[i];
        assert(base[k] == d[i1]);
    }
}

/// The first entry registered for user `u`.
pub open spec fn find_user(d: Seq<DirEntryView>, u: Seq<char>) -> Option<DirEntryView>
    decreases d.len(),
{
    if d.len() == 0 {
        None
    } else if d[0].user_id == u {
        Some(d[0])
    } else {
        find_user(d.skip(1), u)
    }
}

pub open spec fn has_user(d: Seq<DirEntryView>, u: Seq<char>) -> bool {
    find_user(d, u) is Some
}

/// How many entries are registered for user `u`.
pub open spec fn count_user(d: Seq<DirEntryView>, u: Seq<char>) -> nat
    decreases d.len(),
{
    if d.len() == 0 {
        0
    } else {
        (if d[0].user_id == u {
            1nat
        } else {
            0nat
        }) + count_user(d.skip(1), u)
    }
}

/// What the directory exports in a peer list: user, host, port, in entry
/// order.
pub open spec fn export(d: Seq<DirEntryView>) -> Seq<(Seq<char>, Seq<char>, u16)> {
    d.map(|i: int, e: DirEntryView| (e.user_id, e.address, e.port))
}

#[verifier::rlimit(50)]
pub proof fn lemma_remove_user_spec_props(d: Seq<DirEntryView>, u: Seq<char>)
    ensures
        remove_user_spec(d, u).len() <= d.len(),
        forall|k: int|
            0 <= k < remove_user_spec(d, u).len() ==> #[trigger] remove_user_spec(d, u)[k].user_id
                != u,
        forall|k: int|
            0 <= k < remove_user_spec(d, u).len() ==> exists|i: int|
                0 <= i < d.len() && #[trigger] remove_user_spec(d, u)[k] == d[i],
        dir_wf(d) ==> dir_wf(remove_user_spec(d, u)),
    decreases d.len(),
{
    if d.len() > 0 {
        lemma_remove_user_spec_props(d.skip(1), u);
        let rec = remove_user_spec(d.skip(1), u);
        assert(forall|i: int| 0 <= i < d.skip(1).len() ==> d.skip(1)[i] == d[i + 1]);
        if d[0].user_id != u {
            let res = seq![d[0]] + rec;
            assert(forall|k: int| 0 <= k < rec.len() ==> res[k + 1] == rec[k]);
            assert(res[0] == d[0]);
            assert forall|k: int| 0 <= k < res.len() implies exists|i: int|
                0 <= i < d.len() && #[trigger] res[k] == d[i] by {
                if k == 0 {
                    assert(res[0] == d[0]);
                } else {
                    let i0 = choose|i: int| 0 <= i < d.skip(1).len() && rec[k - 1] == d.skip(1)[i];
                    assert(res[k] == d[i0 + 1]);
                }
            }
            if dir_wf(d) {
                assert forall|i: int, j: int| 0 <= i < j < res.len() implies #[trigger] res[i].token
                    != #[trigger] res[j].token && res[i].user_id != res[j].user_id by {
                    if i == 0 {
                        let i0 = choose|t: int|
                            0 <= t < d.skip(1).len() && rec[j - 1] == d.skip(1)[t];
                        assert(res[j] == d[i0 + 1]);
                        assert(0 < i0 + 1 < d.len());
                        assert(d[0].token != d[i0 + 1].token && d[0].user_id != d[i0
                            + 1].user_id);
                    } else {
                        assert(res[i] == rec[i - 1]);
                        assert(res[j] == rec[j - 1]);
                    }
                }
            }
        }
    }
}

#[verifier::rlimit(50)]
pub proof fn lemma_remove_token_spec_props(d: Seq<DirEntryView>, t: u64)
    ensures
        remove_token_spec(d, t).len() <= d.len(),
        forall|k: int|
            0 <= k < remove_token_spec(d, t).len() ==> #[trigger] remove_token_spec(d, t)[k].token
                != t,
        forall|k: int|
            0 <= k < remove_token_spec(d, t).len() ==> exists|i: int|
                0 <= i < d.len() && #[trigger] remove_token_spec(d, t)[k] == d[i],
        dir_wf(d) ==> dir_wf(remove_token_spec(d, t)),
    decreases d.len(),
{
    if d.len() > 0 {
        lemma_remove_token_spec_props(d.skip(1), t);
        let rec = remove_token_spec(d.skip(1), t);
        assert(forall|i: int| 0 <= i < d.skip(1).len() ==> d.skip(1)[i] == d[i + 1]);
        if d[0].token != t {
            let res = seq![d[0]] + rec;
            assert(forall|k: int| 0 <= k < rec.len() ==> res[k + 1] == rec[k]);
            assert(res[0] == d[0]);
            assert forall|k: int| 0 <= k < res.len() implies exists|i: int|
                0 <= i < d.len() && #[trigger] res[k] == d[i] by {
                if k == 0 {
                    assert(res[0] == d[0]);
                } else {
                    let i0 = choose|i: int| 0 <= i < d.skip(1).len() && rec[k - 1] == d.skip(1)[i];
                    assert(res[k] == d[i0 + 1]);
                }
            }
            if dir_wf(d) {
                assert forall|i: int, j: int| 0 <= i < j < res.len() implies #[trigger] res[i].token
                    != #[trigger] res[j].token && res[i].user_id != res[j].user_id by {
                    if i == 0 {
                        let i0 = choose|s: int|
                            0 <= s < d.skip(1).len() && rec[j - 1] == d.skip(1)[s];
                        assert(res[j] == d[i0 + 1]);
                        assert(0 < i0 + 1 < d.len());
                        assert(d[0].token != d[i0 + 1].token && d[0].user_id != d[i0
                            + 1].user_id);
                    } else {
                        assert(res[i] == rec[i - 1]);
                        assert(res[j] == rec[j - 1]);
                    }
                }
            }
        }
    }
}

#[verifier::rlimit(50)]
pub proof fn lemma_evict_spec_props(d: Seq<DirEntryView>, now: u64, window: u64)
    ensures
        evict_spec(d, now, window).len() <= d.len(),
        forall|k: int|
            0 <= k < evict_spec(d, now, window).len() ==> !stale(
                #[trigger] evict_spec(d, now, window)[k],
                now,
                window,
            ),
        forall|k: int|
            0 <= k < evict_spec(d, now, window).len() ==> exists|i: int|
                0 <= i < d.len() && #[trigger] evict_spec(d, now, window)[k] == d[i],
        dir_wf(d) ==> dir_wf(evict_spec(d, now, window)),
    decreases d.len(),
{
    if d.len() > 0 {
        lemma_evict_spec_props(d.skip(1), now, window);
        let rec = evict_spec(d.skip(1), now, window);
        assert(forall|i: int| 0 <= i < d.skip(1).len() ==> d.skip(1)[i] == d[i + 1]);
        if !stale(d[0], now, window) {
            let res = seq![d[0]] + rec;
            assert(forall|k: int| 0 <= k < rec.len() ==> res[k + 1] == rec[k]);
            assert(res[0] == d[0]);
            assert forall|k: int| 0 <= k < res.len() implies exists|i: int|
                0 <= i < d.len() && #[trigger] res[k] == d[i] by {
                if k == 0 {
                    assert(res[0] == d[0]);
                } else {
                    let i0 = choose|i: int| 0 <= i < d.skip(1).len() && rec[k - 1] == d.skip(1)[i];
                    assert(res[k] == d[i0 + 1]);
                }
            }
            if dir_wf(d) {
                assert forall|i: int, j: int| 0 <= i < j < res.len() implies #[trigger] res[i].token
                    != #[trigger] res[j].token && res[i].user_id != res[j].user_id by {
                    if i == 0 {
                        let i0 = choose|s: int|
                            0 <= s < d.skip(1).len() && rec[j - 1] == d.skip(1)[s];
                        assert(res[j] == d[i0 + 1]);
                        assert(0 < i0 + 1 < d.len());
                        assert(d[0].token != d[i0 + 1].token && d[0].user_id != d[i0
                            + 1].user_id);
                    } else {
                        assert(res[i] == rec[i - 1]);
                        assert(res[j] == rec[j - 1]);
                    }
                }
            }
        }
    }
}

/// Nothing for `u` survives `remove_user_spec`, so a join that first
/// removes and then inserts leaves exactly one entry for the joiner.
pub proof fn lemma_count_after_join(d: Seq<DirEntryView>, u: Seq<char>, t: u64, e: DirEntryView)
    requires
        e.user_id == u,
    ensures
        count_user(remove_token_spec(remove_user_spec(d, u), t).push(e), u) == 1,
{
    lemma_remove_user_spec_props(d, u);
    lemma_remove_token_spec_props(remove_user_spec(d, u), t);
    let base = remove_token_spec(remove_user_spec(d, u), t);
    lemma_count_user_none(base, u);
    lemma_count_user_push(base, e, u);
}

pub proof fn lemma_count_user_none(d: Seq<DirEntryView>, u: Seq<char>)
    requires
        forall|k: int| 0 <= k < d.len() ==> #[trigger] d[k].user_id != u,
    ensures
        count_user(d, u) == 0,
    decreases d.len(),
{
    if d.len() > 0 {
        assert(forall|i: int| 0 <= i < d.skip(1).len() ==> d.skip(1)[i] == d[i + 1]);
        lemma_count_user_none(d.skip(1), u);
    }
}

pub proof fn lemma_count_user_push(d: Seq<DirEntryView>, e: DirEntryView, u: Seq<char>)
    ensures
        count_user(d.push(e), u) == count_user(d, u) + (if e.user_id == u {
            1nat
        } else {
            0nat
        }),
    decreases d.len(),
{
    if d.len() == 0 {
        assert(d.push(e)[0] == e);
        assert(d.push(e).skip(1) =~= Seq::<DirEntryView>::empty());
        assert(count_user(Seq::<DirEntryView>::empty(), u) == 0);
        assert(count_user(d, u) == 0);
    } else {
        assert(d.push(e)[0] == d[0]);
        assert(d.push(e).skip(1) =~= d.skip(1).push(e));
        lemma_count_user_push(d.skip(1), e, u);
        assert(count_user(d.push(e), u) == (if d[0].user_id == u {
            1nat
        } else {
            0nat
        }) + count_user(d.skip(1).push(e), u));
        assert(count_user(d, u) == (if d[0].user_id == u {
            1nat
        } else {
            0nat
        }) + count_user(d.skip(1), u));
    }
}

/// `find_user` finds exactly the registered users, and what it finds is an
/// entry of the directory for that user.
pub proof fn lemma_find_user_props(d: Seq<DirEntryView>, u: Seq<char>)
    ensures
        match find_user(d, u) {
            Some(e) => e.user_id == u && exists|i: int| 0 <= i < d.len() && #[trigger] d[i] == e,
            None => forall|i: int| 0 <= i < d.len() ==> #[trigger] d[i].user_id != u,
        },
    decreases d.len(),
{
    if d.len() == 0 {
    } else if d[0].user_id == u {
        assert(find_user(d, u) == Some(d[0]));
        assert(exists|i: int| 0 <= i < d.len() && #[trigger] d[i] == d[0]) by {
            assert(d[0] == d[0]);
        }
    } else {
        lemma_find_user_props(d.skip(1), u);
        assert(forall|i: int| 0 <= i < d.skip(1).len() ==> d.skip(1)[i] == d[i + 1]);
        match find_user(d.skip(1), u) {
            Some(e) => {
                let i0 = choose|i: int| 0 <= i < d.skip(1).len() && d.skip(1)[i] == e;
                assert(d[i0 + 1] == e);
            },
            None => {
                assert forall|i: int| 0 <= i < d.len() implies #[trigger] d[i].user_id != u by {
                    if i > 0 {
                        assert(d.skip(1)[i - 1] == d[i]);
                    }
                }
            },
        }
    }
}

/// The directory itself: a list of entries, unique by token and by user.
pub struct Directory {
    entries: Vec<DirEntry>,
}

pub open spec fn entries_view(es: Seq<DirEntry>) -> Seq<DirEntryView> {
    es.map(|i: int, e: DirEntry| e@)
}

impl View for Directory {
    type V = Seq<DirEntryView>;

    closed spec fn view(&self) -> Seq<DirEntryView> {
        entries_view(self.entries@)
    }
}

impl Directory {
    pub open spec fn wf(&self) -> bool {
        dir_wf(self@)
    }

    pub fn new() -> (r: Directory)
        ensures
            r@ == Seq::<DirEntryView>::empty(),
            r.wf(),
    {
        let d = Directory { entries: Vec::new() };
        proof {
            assert(entries_view(d.entries@) =~= Seq::<DirEntryView>::empty());
        }
        d
    }

    pub fn len(&self) -> (r: usize)
        ensures
            r == self@.len(),
    {
        self.entries.len()
    }

    fn remove_user(&mut self, u: &String)
        ensures
            final(self)@ == remove_user_spec(old(self)@, u@),
    {
        let mut kept: Vec<DirEntry> = Vec::new();
        let n = self.entries.len();
        let mut i: usize = 0;
        proof {
            assert(self@.skip(0) =~= self@);
            assert(entries_view(kept@) =~= Seq::<DirEntryView>::empty());
            assert(entries_view(kept@) + remove_user_spec(self@.skip(0), u@) =~= remove_user_spec(
                self@,
                u@,
            ));
        }
        while i < n
            invariant
                i <= n,
                n == self.entries@.len(),
                entries_view(kept@) + remove_user_spec(self@.skip(i as int), u@) == remove_user_spec(
                    self@,
                    u@,
                ),
            decreases n - i,
        {
            let ghost pre = entries_view(kept@);
            let ghost rest = self@.skip(i as int);
            proof {
                assert(rest[0] == self@[i as int]);
                assert(self@[i as int] == self.entries@[i as int]@);
                assert(rest.skip(1) =~= self@.skip(i as int + 1));
            }
            if !self.entries[i].info.user_id.eq(u) {
                kept.push(self.entries[i].duplicate());
                proof {
                    assert(entries_view(kept@) =~= pre.push(self@[i as int]));
                    assert(pre.push(self@[i as int]) + remove_user_spec(
                        self@.skip(i as int + 1),
                        u@,
                    ) =~= pre + (seq![self@[i as int]] + remove_user_spec(
                        self@.skip(i as int + 1),
                        u@,
                    )));
                }
            }
            i = i + 1;
        }
        proof {
            assert(self@.skip(n as int) =~= Seq::<DirEntryView>::empty());
            assert(entries_view(kept@) =~= remove_user_spec(self@, u@));
        }
        self.entries = kept;
    }

    fn remove_token_entries(&mut self, t: u64)
        ensures
            final(self)@ == remove_token_spec(old(self)@, t),
    {
        let mut kept: Vec<DirEntry> = Vec::new();
        let n = self.entries.len();
        let mut i: usize = 0;
        proof {
            assert(self@.skip(0) =~= self@);
            assert(entries_view(kept@) =~= Seq::<DirEntryView>::empty());
            assert(entries_view(kept@) + remove_token_spec(self@.skip(0), t) =~= remove_token_spec(
                self@,
                t,
            ));
        }
        while i < n
            invariant
                i <= n,
                n == self.entries@.len(),
                entries_view(kept@) + remove_token_spec(self@.skip(i as int), t)
                    == remove_token_spec(self@, t),
            decreases n - i,
        {
            let ghost pre = entries_view(kept@);
            let ghost rest = self@.skip(i as int);
            proof {
                assert(rest[0] == self@[i as int]);
                assert(self@[i as int] == self.entries@[i as int]@);
                assert(rest.skip(1) =~= self@.skip(i as int + 1));
            }
            if self.entries[i].token != t {
                kept.push(self.entries[i].duplicate());
                proof {
                    assert(entries_view(kept@) =~= pre.push(self@[i as int]));
                    assert(pre.push(self@[i as int]) + remove_token_spec(
                        self@.skip(i as int + 1),
                        t,
                    ) =~= pre + (seq![self@[i as int]] + remove_token_spec(
                        self@.skip(i as int + 1),
                        t,
                    )));
                }
            }
            i = i + 1;
        }
        proof {
            assert(self@.skip(n as int) =~= Seq::<DirEntryView>::empty());
            assert(entries_view(kept@) =~= remove_token_spec(self@, t));
        }
        self.entries = kept;
    }

    /// Records a joiner known to be absent: a plain append.
    pub fn record(&mut self, token: u64, user_id: String, address: String, port: u16, now: u64)
        requires
            forall|k: int|
                0 <= k < old(self)@.len() ==> #[trigger] old(self)@[k].token != token && old(
                    self,
                )@[k].user_id != user_id@,
        ensures
            final(self)@ == old(self)@.push(
                DirEntryView {
                    token,
                    user_id: user_id@,
                    address: address@,
                    port,
                    last_heartbeat: now,
                },
            ),
            old(self).wf() ==> final(self).wf(),
    {
        let ghost d0 = self@;
        let e = DirEntry {
            token,
            info: PeerInfo { user_id, address, port, last_heartbeat: now },
        };
        let ghost ev = e@;
        self.entries.push(e);
        proof {
            assert(entries_view(self.entries@) =~= d0.push(ev));
            if dir_wf(d0) {
                assert forall|i: int, j: int| 0 <= i < j < self@.len() implies #[trigger] self@[i].token
                    != #[trigger] self@[j].token && self@[i].user_id != self@[j].user_id by {
                    if j == self@.len() - 1 {
                        assert(self@[i] == d0[i]);
                        assert(self@[j] == ev);
                        assert(d0[i].token != ev.token && d0[i].user_id != ev.user_id);
                    } else {
                        assert(self@[i] == d0[i]);
                        assert(self@[j] == d0[j]);
                        lemma_dir_wf_pair(d0, i, j);
                    }
                }
            }
        }
    }

    /// Removes whatever is registered under the token or under the user,
    /// then records the joiner: afterwards exactly one entry names the
    /// user, stamped with the present time.
    pub fn upsert_join(&mut self, token: u64, user_id: String, address: String, port: u16, now: u64)
        ensures
            final(self)@ == remove_token_spec(remove_user_spec(old(self)@, user_id@), token).push(
                DirEntryView {
                    token,
                    user_id: user_id@,
                    address: address@,
                    port,
                    last_heartbeat: now,
                },
            ),
            old(self).wf() ==> final(self).wf(),
            count_user(final(self)@, user_id@) == 1,
    {
        proof {
            lemma_remove_user_spec_props(self@, user_id@);
            lemma_remove_token_spec_props(remove_user_spec(self@, user_id@), token);
            lemma_count_after_join(
                self@,
                user_id@,
                token,
                DirEntryView {
                    token,
                    user_id: user_id@,
                    address: address@,
                    port,
                    last_heartbeat: now,
                },
            );
        }
        let ghost d0 = self@;
        self.remove_user(&user_id);
        self.remove_token_entries(token);
        let e = DirEntry {
            token,
            info: PeerInfo { user_id, address, port, last_heartbeat: now },
        };
        let ghost ev = e@;
        self.entries.push(e);
        proof {
            assert(entries_view(self.entries@) =~= remove_token_spec(
                remove_user_spec(d0, ev.user_id),
                token,
            ).push(ev));
            let base = remove_token_spec(remove_user_spec(d0, ev.user_id), token);
            if dir_wf(d0) {
                assert forall|i: int, j: int| 0 <= i < j < self@.len() implies #[trigger] self@[i].token
                    != #[trigger] self@[j].token && self@[i].user_id != self@[j].user_id by {
                    if j == self@.len() - 1 {
                        assert(self@[i] == base[i]);
                        assert(self@[j] == ev);
                    } else {
                        assert(self@[i] == base[i]);
                        assert(self@[j] == base[j]);
                    }
                }
            }
        }
    }

    /// Drops the entry on this token, if any; nothing else changes.
    pub fn remove_by_token(&mut self, t: u64)
        ensures
            final(self)@ == remove_token_spec(old(self)@, t),
            old(self).wf() ==> final(self).wf(),
    {
        proof {
            lemma_remove_token_spec_props(self@, t);
        }
        self.remove_token_entries(t);
    }

    /// Drops the entry of this user, if any; nothing else changes.
    pub fn remove_by_user(&mut self, u: &String)
        ensures
            final(self)@ == remove_user_spec(old(self)@, u@),
            old(self).wf() ==> final(self).wf(),
    {
        proof {
            lemma_remove_user_spec_props(self@, u@);
        }
        self.remove_user(u);
    }

    /// Refreshes the heartbeat stamp of the entry on this token.
    pub fn refresh(&mut self, t: u64, now: u64)
        ensures
            final(self)@ == refresh_spec(old(self)@, t, now),
            old(self).wf() ==> final(self).wf(),
    {
        let n = self.entries.len();
        let mut i: usize = 0;
        let ghost d0 = self@;
        while i < n
            invariant
                i <= n,
                n == self.entries@.len(),
                d0.len() == n,
                forall|k: int| i <= k < n ==> #[trigger] self@[k] == d0[k],
                forall|k: int|
                    0 <= k < i ==> #[trigger] self@[k] == (if d0[k].token == t {
                        stamped(d0[k], now)
                    } else {
                        d0[k]
                    }),
            decreases n - i,
        {
            let ghost before = self@;
            proof {
                assert(before[i as int] == self.entries@[i as int]@);
            }
            if self.entries[i].token == t {
                let updated = DirEntry {
                    token: self.entries[i].token,
                    info: PeerInfo {
                        user_id: self.entries[i].info.user_id.clone(),
                        address: self.entries[i].info.address.clone(),
                        port: self.entries[i].info.port,
                        last_heartbeat: now,
                    },
                };
                let ghost uv = updated@;
                self.entries.set(i, updated);
                proof {
                    assert(forall|k: int|
                        0 <= k < n && k != i ==> #[trigger] self@[k] == before[k]);
                    assert(self@[i as int] == uv);
                    assert(uv == stamped(d0[i as int], now));
                }
            } else {
                proof {
                    assert(self@[i as int] == d0[i as int]);
                    assert(d0[i as int].token != t);
                }
            }
            i = i + 1;
        }
        proof {
            assert(self@ =~= refresh_spec(d0, t, now));
            if dir_wf(d0) {
                assert forall|a: int, b: int| 0 <= a < b < self@.len() implies #[trigger] self@[a].token
                    != #[trigger] self@[b].token && self@[a].user_id != self@[b].user_id by {
                    assert(self@[a].token == d0[a].token && self@[a].user_id == d0[a].user_id);
                    assert(self@[b].token == d0[b].token && self@[b].user_id == d0[b].user_id);
                }
            }
        }
    }

    /// Removes every entry whose heartbeat is older than the window and
    /// hands back their tokens.
    pub fn evict_stale(&mut self, now: u64, window: u64) -> (removed: Vec<u64>)
        ensures
            final(self)@ == evict_spec(old(self)@, now, window),
            removed@ == evicted_tokens_spec(old(self)@, now, window),
            old(self).wf() ==> final(self).wf(),
    {
        proof {
            lemma_evict_spec_props(self@, now, window);
        }
        let mut kept: Vec<DirEntry> = Vec::new();
        let mut removed: Vec<u64> = Vec::new();
        let n = self.entries.len();
        let mut i: usize = 0;
        proof {
            assert(self@.skip(0) =~= self@);
            assert(entries_view(kept@) =~= Seq::<DirEntryView>::empty());
            assert(entries_view(kept@) + evict_spec(self@.skip(0), now, window) =~= evict_spec(
                self@,
                now,
                window,
            ));
            assert(removed@ + evicted_tokens_spec(self@.skip(0), now, window) =~=
                evicted_tokens_spec(self@, now, window));
        }
        while i < n
            invariant
                i <= n,
                n == self.entries@.len(),
                entries_view(kept@) + evict_spec(self@.skip(i as int), now, window) == evict_spec(
                    self@,
                    now,
                    window,
                ),
                removed@ + evicted_tokens_spec(self@.skip(i as int), now, window)
                    == evicted_tokens_spec(self@, now, window),
            decreases n - i,
        {
            let ghost pre = entries_view(kept@);
            let ghost prer = removed@;
            let ghost rest = self@.skip(i as int);
            proof {
                assert(rest[0] == self@[i as int]);
                assert(self@[i as int] == self.entries@[i as int]@);
                assert(rest.skip(1) =~= self@.skip(i as int + 1));
            }
            let is_stale = now > window && self.entries[i].info.last_heartbeat < now - window;
            if is_stale {
                removed.push(self.entries[i].token);
                proof {
                    assert(removed@ =~= prer.push(self@[i as int].token));
                    assert(prer.push(self@[i as int].token) + evicted_tokens_spec(
                        self@.skip(i as int + 1),
                        now,
                        window,
                    ) =~= prer + (seq![self@[i as int].token] + evicted_tokens_spec(
                        self@.skip(i as int + 1),
                        now,
                        window,
                    )));
                }
            } else {
                kept.push(self.entries[i].duplicate());
                proof {
                    assert(entries_view(kept@) =~= pre.push(self@[i as int]));
                    assert(pre.push(self@[i as int]) + evict_spec(
                        self@.skip(i as int + 1),
                        now,
                        window,
                    ) =~= pre + (seq![self@[i as int]] + evict_spec(
                        self@.skip(i as int + 1),
                        now,
                        window,
                    )));
                }
            }
            i = i + 1;
        }
        proof {
            assert(self@.skip(n as int) =~= Seq::<DirEntryView>::empty());
            assert(entries_view(kept@) =~= evict_spec(self@, now, window));
            assert(removed@ =~= evicted_tokens_spec(self@, now, window));
        }
        self.entries = kept;
        removed
    }

    /// The entry registered for this user, if any.
    pub fn lookup_user(&self, u: &String) -> (r: Option<DirEntry>)
        ensures
            match r {
                Some(e) => find_user(self@, u@) == Some(e@),
                None => find_user(self@, u@) is None,
            },
    {
        let n = self.entries.len();
        let mut i: usize = 0;
        proof {
            assert(self@.skip(0) =~= self@);
        }
        while i < n
            invariant
                i <= n,
                n == self.entries@.len(),
                find_user(self@, u@) == find_user(self@.skip(i as int), u@),
            decreases n - i,
        {
            proof {
                assert(self@.skip(i as int)[0] == self@[i as int]);
                assert(self@[i as int] == self.entries@[i as int]@);
                assert(self@.skip(i as int).skip(1) =~= self@.skip(i as int + 1));
            }
            if self.entries[i].info.user_id.eq(u) {
                return Some(self.entries[i].duplicate());
            }
            i = i + 1;
        }
        proof {
            assert(self@.skip(n as int).len() == 0);
        }
        None
    }

    /// All tokens, in entry order, for a broadcast.
    pub fn tokens(&self) -> (r: Vec<u64>)
        ensures
            r@ == self@.map(|i: int, e: DirEntryView| e.token),
    {
        let mut out: Vec<u64> = Vec::new();
        let n = self.entries.len();
        let mut i: usize = 0;
        while i < n
            invariant
                i <= n,
                n == self.entries@.len(),
                out@ == self@.take(i as int).map(|k: int, e: DirEntryView| e.token),
            decreases n - i,
        {
            out.push(self.entries[i].token);
            proof {
                assert(self@.take(i as int + 1) =~= self@.take(i as int).push(self@[i as int]));
                assert(self@.take(i as int).push(self@[i as int]).map(
                    |k: int, e: DirEntryView| e.token,
                ) =~= self@.take(i as int).map(|k: int, e: DirEntryView| e.token).push(
                    self@[i as int].token,
                ));
                assert(self@[i as int] == self.entries@[i as int]@);
            }
            i = i + 1;
        }
        proof {
            assert(self@.take(n as int) =~= self@);
        }
        out
    }

    /// The exported peer list: one `(user, host, port)` per entry, in order.
    pub fn snapshot(&self) -> (r: Vec<PeerInfo>)
        ensures
            crate::peerlist::peer_infos_view(r@) == export(self@),
    {
        let mut out: Vec<PeerInfo> = Vec::new();
        let n = self.entries.len();
        let mut i: usize = 0;
        while i < n
            invariant
                i <= n,
                n == self.entries@.len(),
                crate::peerlist::peer_infos_view(out@) == export(self@.take(i as int)),
            decreases n - i,
        {
            out.push(self.entries[i].info.duplicate());
            proof {
                assert(self@.take(i as int + 1) =~= self@.take(i as int).push(self@[i as int]));
                assert(export(self@.take(i as int + 1)) =~= export(self@.take(i as int)).push(
                    (self@[i as int].user_id, self@[i as int].address, self@[i as int].port),
                ));
                assert(crate::peerlist::peer_infos_view(out@) =~= export(
                    self@.take(i as int),
                ).push((self@[i as int].user_id, self@[i as int].address, self@[i as int].port)));
                assert(self@[i as int] == self.entries@[i as int]@);
            }
            i = i + 1;
        }
        proof {
            assert(self@.take(n as int) =~= self@);
        }
        out
    }
}

} // verus!
