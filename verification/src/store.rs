//! Message cache store: header records and rendered bodies keyed by
//! `(uid, generation)`, plus the mailbox generation that anchors cache
//! invalidation.
//!
//! The store is modelled as maps from `(uid, generation)` keys to
//! records; headers are additionally kept in most-recent-first order so
//! recency queries are exact. The surrounding application mirrors every
//! update into its durable storage; this module is the authority on what
//! each operation means.

use vstd::prelude::*;

verus! {

/// Header metadata of one message, keyed by `(uid, uid_validity)`.
#[derive(Debug)]
pub struct MessageHeader {
    pub uid: u32,
    pub uid_validity: u32,
    pub subject: String,
    pub sender: String,
    pub date: String,
    pub seen: bool,
    pub flagged: bool,
}

/// Mathematical view of a [`MessageHeader`].
pub ghost struct HeaderView {
    pub uid: int,
    pub uid_validity: int,
    pub subject: Seq<char>,
    pub sender: Seq<char>,
    pub date: Seq<char>,
    pub seen: bool,
    pub flagged: bool,
}

impl View for MessageHeader {
    type V = HeaderView;

    open spec fn view(&self) -> HeaderView {
        HeaderView {
            uid: self.uid as int,
            uid_validity: self.uid_validity as int,
            subject: self.subject@,
            sender: self.sender@,
            date: self.date@,
            seen: self.seen,
            flagged: self.flagged,
        }
    }
}

/// The `(uid, generation)` key of a header record.
pub open spec fn hkey(m: MessageHeader) -> (int, int) {
    (m.uid as int, m.uid_validity as int)
}

/// A cached rendered body for one `(uid, generation)` key.
pub struct BodyEntry {
    pub uid: u32,
    pub uid_validity: u32,
    pub html: String,
}

pub open spec fn bkey(b: BodyEntry) -> (int, int) {
    (b.uid as int, b.uid_validity as int)
}

/// The map a sequence of header records denotes; later records win.
pub open spec fn header_map(s: Seq<MessageHeader>) -> Map<(int, int), HeaderView>
    decreases s.len(),
{
    if s.len() == 0 {
        Map::empty()
    } else {
        header_map(s.drop_last()).insert(hkey(s.last()), s.last()@)
    }
}

/// The map a sequence of body entries denotes; later entries win.
pub open spec fn body_map(s: Seq<BodyEntry>) -> Map<(int, int), Seq<char>>
    decreases s.len(),
{
    if s.len() == 0 {
        Map::empty()
    } else {
        body_map(s.drop_last()).insert(bkey(s.last()), s.last().html@)
    }
}

/// The local message cache for the fixed target mailbox.
pub struct CacheStore {
    pub mailbox: String,
    pub generation: Option<u32>,
    pub headers: Vec<MessageHeader>,
    pub bodies: Vec<BodyEntry>,
}

impl CacheStore {
    /// Header keys are unique and headers are ordered most recent
    /// (highest uid) first; body keys are unique.
    pub open spec fn wf(self) -> bool {
        &&& forall|i: int, j: int|
            0 <= i < j < self.headers@.len() ==> #[trigger] hkey(self.headers@[i])
                != #[trigger] hkey(self.headers@[j])
        &&& forall|i: int, j: int|
            0 <= i < j < self.headers@.len() ==> self.headers@[i].uid >= self.headers@[j].uid
        &&& forall|i: int, j: int|
            0 <= i < j < self.bodies@.len() ==> #[trigger] bkey(self.bodies@[i])
                != #[trigger] bkey(self.bodies@[j])
    }

    pub open spec fn spec_header_map(self) -> Map<(int, int), HeaderView> {
        header_map(self.headers@)
    }

    pub open spec fn spec_body_map(self) -> Map<(int, int), Seq<char>> {
        body_map(self.bodies@)
    }

    /// An empty store for the given mailbox, with no generation known.
    pub fn new(mailbox: String) -> (r: Self)
        ensures
            r.wf(),
            r.mailbox@ == mailbox@,
            r.generation is None,
            r.spec_header_map() == Map::<(int, int), HeaderView>::empty(),
            r.spec_body_map() == Map::<(int, int), Seq<char>>::empty(),
            r.headers@.len() == 0,
            r.bodies@.len() == 0,
    {
        CacheStore { mailbox, generation: None, headers: Vec::new(), bodies: Vec::new() }
    }

    /// The generation recorded for the mailbox, if any.
    pub fn get_mailbox_validity(&self) -> (r: Option<u32>)
        ensures
            r == self.generation,
    {
        self.generation
    }

    /// Records the server-assigned generation for the mailbox.
    pub fn update_mailbox_validity(&mut self, validity: u32)
        requires
            old(self).wf(),
        ensures
            final(self).wf(),
            final(self).generation == Some(validity),
            final(self).mailbox == old(self).mailbox,
            final(self).headers == old(self).headers,
            final(self).bodies == old(self).bodies,
    {
        self.generation = Some(validity);
    }

    /// Drops every cached header and body; used when the generation
    /// changes and all previously cached data goes stale.
    pub fn clear_messages(&mut self)
        ensures
            final(self).wf(),
            final(self).headers@.len() == 0,
            final(self).bodies@.len() == 0,
            final(self).spec_header_map() == Map::<(int, int), HeaderView>::empty(),
            final(self).spec_body_map() == Map::<(int, int), Seq<char>>::empty(),
            final(self).generation == old(self).generation,
            final(self).mailbox == old(self).mailbox,
    {
        self.headers = Vec::new();
        self.bodies = Vec::new();
    }

    /// The highest cached uid, `0` when nothing is cached. Every cached
    /// header's uid is at most the result, and the result is attained
    /// when the store is non-empty.
    pub fn get_highest_uid(&self) -> (r: u32)
        requires
            self.wf(),
        ensures
            self.headers@.len() == 0 ==> r == 0,
            self.headers@.len() > 0 ==> r == self.headers@[0].uid,
            forall|i: int| 0 <= i < self.headers@.len() ==> self.headers@[i].uid <= r,
    {
        if self.headers.len() == 0 {
            0
        } else {
            self.headers[0].uid
        }
    }

    /// Index of the header record with this key, if one is cached.
    fn find_header(&self, uid: u32, validity: u32) -> (r: Option<usize>)
        requires
            self.wf(),
        ensures
            match r {
                Some(j) => j < self.headers@.len() && hkey(self.headers@[j as int]) == (
                    uid as int,
                    validity as int,
                ),
                None => forall|i: int|
                    0 <= i < self.headers@.len() ==> #[trigger] hkey(self.headers@[i]) != (
                        uid as int,
                        validity as int,
                    ),
            },
    {
        let n = self.headers.len();
        let mut i: usize = 0;
        while i < n
            invariant
                n == self.headers@.len(),
                0 <= i <= n,
                forall|x: int|
                    0 <= x < i ==> #[trigger] hkey(self.headers@[x]) != (
                        uid as int,
                        validity as int,
                    ),
            decreases n - i,
        {
            if self.headers[i].uid == uid && self.headers[i].uid_validity == validity {
                return Some(i);
            }
            i += 1;
        }
        None
    }

    /// Index of the body entry with this key, if one is cached.
    fn find_body(&self, uid: u32, validity: u32) -> (r: Option<usize>)
        requires
            self.wf(),
        ensures
            match r {
                Some(j) => j < self.bodies@.len() && bkey(self.bodies@[j as int]) == (
                    uid as int,
                    validity as int,
                ),
                None => forall|i: int|
                    0 <= i < self.bodies@.len() ==> #[trigger] bkey(self.bodies@[i]) != (
                        uid as int,
                        validity as int,
                    ),
            },
    {
        let n = self.bodies.len();
        let mut i: usize = 0;
        while i < n
            invariant
                n == self.bodies@.len(),
                0 <= i <= n,
                forall|x: int|
                    0 <= x < i ==> #[trigger] bkey(self.bodies@[x]) != (
                        uid as int,
                        validity as int,
                    ),
            decreases n - i,
        {
            if self.bodies[i].uid == uid && self.bodies[i].uid_validity == validity {
                return Some(i);
            }
            i += 1;
        }
        None
    }

    /// The cached rendered body for `(uid, validity)`: present exactly
    /// when that key was written, holding what was last written.
    pub fn get_message_body_cache(&self, uid: u32, validity: u32) -> (r: Option<String>)
        requires
            self.wf(),
        ensures
            r is Some <==> self.spec_body_map().contains_key((uid as int, validity as int)),
            r is Some ==> r->0@ == self.spec_body_map()[(uid as int, validity as int)],
    {
        proof {
            lemma_body_map_props(self.bodies@);
        }
        match self.find_body(uid, validity) {
            Some(j) => Some(self.bodies[j].html.clone()),
            None => {
                proof {
                    if self.spec_body_map().contains_key((uid as int, validity as int)) {
                        let i = choose|i: int|
                            0 <= i < self.bodies@.len() && bkey(#[trigger] self.bodies@[i]) == (
                                uid as int,
                                validity as int,
                            );
                    }
                }
                None
            },
        }
    }

    /// Writes (or idempotently overwrites) the rendered body cached for
    /// `(uid, validity)`.
    pub fn update_message_body(&mut self, uid: u32, validity: u32, html: String)
        requires
            old(self).wf(),
        ensures
            final(self).wf(),
            final(self).spec_body_map() == old(self).spec_body_map().insert(
                (uid as int, validity as int),
                html@,
            ),
            final(self).headers == old(self).headers,
            final(self).generation == old(self).generation,
            final(self).mailbox == old(self).mailbox,
    {
        let ghost key = (uid as int, validity as int);
        match self.find_body(uid, validity) {
            Some(j) => {
                let ghost pre = self.bodies@;
                proof {
                    lemma_body_map_remove(pre, j as int);
                }
                self.bodies.remove(j);
                proof {
                    let t = pre.remove(j as int);
                    assert(forall|x: int| 0 <= x < j ==> t[x] == pre[x]);
                    assert(forall|x: int| j <= x < t.len() ==> t[x] == pre[x + 1]);
                    assert(forall|i: int, l: int|
                        0 <= i < l < t.len() ==> #[trigger] bkey(t[i]) != #[trigger] bkey(t[l]));
                    assert(forall|i: int| 0 <= i < t.len() ==> #[trigger] bkey(t[i]) != key);
                }
            },
            None => {},
        }
        let ghost mid = self.bodies@;
        let entry = BodyEntry { uid, uid_validity: validity, html };
        self.bodies.push(entry);
        proof {
            assert(self.bodies@.drop_last() =~= mid);
            assert(body_map(self.bodies@) == body_map(mid).insert(key, html@));
            assert(body_map(mid).insert(key, html@) =~= old(self).spec_body_map().insert(
                key,
                html@,
            ));
            assert(forall|i: int| 0 <= i < mid.len() ==> #[trigger] bkey(mid[i]) != key);
            assert(forall|i: int, l: int|
                0 <= i < l < self.bodies@.len() ==> #[trigger] bkey(self.bodies@[i])
                    != #[trigger] bkey(self.bodies@[l]));
        }
    }

    /// Bulk upsert of header records: the resulting map is the old map
    /// overridden by the batch (later batch entries win), order stays
    /// most-recent-first, and an empty batch changes nothing.
    #[verifier::rlimit(100)]
    pub fn insert_or_update_messages(&mut self, msgs: &Vec<MessageHeader>)
        requires
            old(self).wf(),
        ensures
            final(self).wf(),
            final(self).spec_header_map() == old(self).spec_header_map().union_prefer_right(
                header_map(msgs@),
            ),
            final(self).bodies == old(self).bodies,
            final(self).generation == old(self).generation,
            final(self).mailbox == old(self).mailbox,
            msgs@.len() == 0 ==> final(self).headers == old(self).headers,
    {
        let ghost m0 = old(self).spec_header_map();
        let n = msgs.len();
        if n == 0 {
            proof {
                assert(header_map(msgs@) =~= Map::<(int, int), HeaderView>::empty());
                assert(m0.union_prefer_right(header_map(msgs@)) =~= m0);
            }
            return ;
        }
        let mut i: usize = 0;
        proof {
            assert(header_map(msgs@.take(0)) =~= Map::<(int, int), HeaderView>::empty());
            assert(m0.union_prefer_right(header_map(msgs@.take(0))) =~= m0);
        }
        while i < n
            invariant
                n == msgs@.len(),
                0 <= i <= n,
                self.wf(),
                self.spec_header_map() == m0.union_prefer_right(header_map(msgs@.take(i as int))),
                self.bodies == old(self).bodies,
                self.generation == old(self).generation,
                self.mailbox == old(self).mailbox,
                m0 == old(self).spec_header_map(),
            decreases n - i,
        {
            let m = clone_header(&msgs[i]);
            let ghost key = hkey(m);
            proof {
                assert(key == hkey(msgs@[i as int]));
                assert(m@ == msgs@[i as int]@);
            }
            let ghost cur = self.spec_header_map();
            match self.find_header(m.uid, m.uid_validity) {
                Some(j) => {
                    let ghost pre = self.headers@;
                    proof {
                        lemma_header_map_remove(pre, j as int);
                    }
                    self.headers.remove(j);
                    proof {
                        let t = pre.remove(j as int);
                        assert(forall|x: int| 0 <= x < j ==> t[x] == pre[x]);
                        assert(forall|x: int| j <= x < t.len() ==> t[x] == pre[x + 1]);
                        assert(forall|a: int, b: int|
                            0 <= a < b < t.len() ==> #[trigger] hkey(t[a]) != #[trigger] hkey(
                                t[b],
                            ));
                        assert(forall|a: int, b: int|
                            0 <= a < b < t.len() ==> t[a].uid >= t[b].uid);
                        assert(forall|x: int| 0 <= x < t.len() ==> #[trigger] hkey(t[x]) != key);
                        assert(self.spec_header_map() =~= cur.remove(key));
                    }
                },
                None => {
                    proof {
                        assert(self.spec_header_map() =~= cur.remove(key)) by {
                            lemma_header_map_props(self.headers@);
                            if cur.contains_key(key) {
                                let x = choose|x: int|
                                    0 <= x < self.headers@.len() && hkey(
                                        #[trigger] self.headers@[x],
                                    ) == key;
                            }
                            assert(!cur.contains_key(key));
                        }
                    }
                },
            }
            let p = find_insert_pos(&self.headers, m.uid);
            let ghost mid = self.headers@;
            proof {
                lemma_header_map_insert(mid, p as int, m);
            }
            self.headers.insert(p, m);
            proof {
                let t = mid.insert(p as int, m);
                assert(self.headers@ == t);
                assert(forall|x: int| 0 <= x < p ==> t[x] == mid[x]);
                assert(t[p as int] == m);
                assert(forall|x: int| p < x < t.len() ==> t[x] == mid[x - 1]);
                assert(forall|a: int, b: int|
                    0 <= a < b < t.len() ==> #[trigger] hkey(t[a]) != #[trigger] hkey(t[b]));
                assert(forall|a: int, b: int| 0 <= a < b < t.len() ==> t[a].uid >= t[b].uid);
                assert(self.spec_header_map() == cur.remove(key).insert(key, m@));
                assert(cur.remove(key).insert(key, m@) =~= cur.insert(key, m@));
                assert(msgs@.take(i + 1).drop_last() =~= msgs@.take(i as int));
                assert(header_map(msgs@.take(i + 1)) == header_map(msgs@.take(i as int)).insert(
                    key,
                    msgs@[i as int]@,
                ));
                assert(m0.union_prefer_right(header_map(msgs@.take(i + 1)))
                    =~= m0.union_prefer_right(header_map(msgs@.take(i as int))).insert(key, m@));
            }
            i += 1;
        }
        proof {
            assert(msgs@.take(n as int) =~= msgs@);
        }
    }

    /// The most recent `limit` cached header records, most recent
    /// first: exactly the first `limit` records of the store's order.
    pub fn load_cached_messages(&self, limit: usize) -> (r: Vec<MessageHeader>)
        requires
            self.wf(),
        ensures
            r@.len() == if limit < self.headers@.len() {
                limit as int
            } else {
                self.headers@.len() as int
            },
            forall|x: int| 0 <= x < r@.len() ==> r@[x]@ == #[trigger] self.headers@[x]@,
    {
        let n = self.headers.len();
        let count = if limit < n {
            limit
        } else {
            n
        };
        let mut out: Vec<MessageHeader> = Vec::new();
        let mut x: usize = 0;
        while x < count
            invariant
                count <= n == self.headers@.len(),
                0 <= x <= count,
                out@.len() == x,
                forall|y: int| 0 <= y < x ==> out@[y]@ == #[trigger] self.headers@[y]@,
            decreases count - x,
        {
            let h = clone_header(&self.headers[x]);
            out.push(h);
            x += 1;
        }
        out
    }

    /// Up to `max_count` most-recent cached headers that have no cached
    /// body yet, as `(uid, generation)` pairs, most recent first.
    pub fn get_unfetched_recent_uids(&self, max_count: usize) -> (r: Vec<(u32, u32)>)
        requires
            self.wf(),
        ensures
            r@ == spec_uncached(self.headers@, self.spec_body_map(), max_count as int),
    {
        let n = self.headers.len();
        let mut out: Vec<(u32, u32)> = Vec::new();
        let mut i: usize = 0;
        proof {
            assert(self.headers@.skip(0) =~= self.headers@);
        }
        while i < n && out.len() < max_count
            invariant
                n == self.headers@.len(),
                0 <= i <= n,
                out@.len() <= max_count,
                self.wf(),
                spec_uncached(self.headers@, self.spec_body_map(), max_count as int) == out@
                    + spec_uncached(
                    self.headers@.skip(i as int),
                    self.spec_body_map(),
                    max_count - out@.len(),
                ),
            decreases n - i,
        {
            let uid = self.headers[i].uid;
            let validity = self.headers[i].uid_validity;
            let ghost rest = self.headers@.skip(i as int);
            proof {
                assert(rest[0] == self.headers@[i as int]);
                assert(rest.skip(1) =~= self.headers@.skip(i + 1));
                lemma_body_map_props(self.bodies@);
            }
            match self.find_body(uid, validity) {
                Some(_) => {
                    proof {
                        assert(self.spec_body_map().contains_key(hkey(rest[0])));
                    }
                },
                None => {
                    proof {
                        if self.spec_body_map().contains_key(hkey(rest[0])) {
                            let x = choose|x: int|
                                0 <= x < self.bodies@.len() && bkey(#[trigger] self.bodies@[x])
                                    == hkey(rest[0]);
                        }
                        assert(!self.spec_body_map().contains_key(hkey(rest[0])));
                    }
                    out.push((uid, validity));
                },
            }
            i += 1;
        }
        proof {
            if i == n {
                assert(self.headers@.skip(n as int) =~= Seq::<MessageHeader>::empty());
            }
        }
        out
    }

    /// Reconciles the stored generation with the one the server
    /// reports when the mailbox is selected: a changed generation drops
    /// every cached header and body before the new value is recorded,
    /// because all old `(uid, generation)` keys have gone stale.
    pub fn reconcile_generation(&mut self, server_validity: u32) -> (changed: bool)
        requires
            old(self).wf(),
        ensures
            final(self).wf(),
            final(self).generation == Some(server_validity),
            final(self).mailbox == old(self).mailbox,
            changed == (old(self).generation != Some(server_validity)),
            changed ==> final(self).headers@.len() == 0 && final(self).bodies@.len() == 0,
            !changed ==> final(self).headers == old(self).headers && final(self).bodies == old(
                self,
            ).bodies,
    {
        let same = match self.generation {
            Some(g) => g == server_validity,
            None => false,
        };
        if !same {
            self.clear_messages();
        }
        self.update_mailbox_validity(server_validity);
        !same
    }
}

/// A field-for-field copy of a header record; the copy denotes the same
/// mathematical record.
pub fn clone_header(h: &MessageHeader) -> (r: MessageHeader)
    ensures
        r@ == h@,
        hkey(r) == hkey(*h),
        r.uid == h.uid,
        r.uid_validity == h.uid_validity,
{
    MessageHeader {
        uid: h.uid,
        uid_validity: h.uid_validity,
        subject: h.subject.clone(),
        sender: h.sender.clone(),
        date: h.date.clone(),
        seen: h.seen,
        flagged: h.flagged,
    }
}

/// First position whose record is not newer than `uid`, in a
/// most-recent-first sequence: where a record with `uid` belongs.
fn find_insert_pos(v: &Vec<MessageHeader>, uid: u32) -> (p: usize)
    requires
        forall|a: int, b: int| 0 <= a < b < v@.len() ==> v@[a].uid >= v@[b].uid,
    ensures
        0 <= p <= v@.len(),
        forall|x: int| 0 <= x < p ==> v@[x].uid > uid,
        p < v@.len() ==> v@[p as int].uid <= uid,
{
    let n = v.len();
    let mut p: usize = 0;
    while p < n
        invariant
            n == v@.len(),
            0 <= p <= n,
            forall|x: int| 0 <= x < p ==> v@[x].uid > uid,
        decreases n - p,
    {
        if v[p].uid <= uid {
            return p;
        }
        p += 1;
    }
    n
}

/// With unique keys, `header_map` is exactly "some record has this key",
/// and each record is found under its own key.
pub proof fn lemma_header_map_props(s: Seq<MessageHeader>)
    requires
        forall|i: int, j: int| 0 <= i < j < s.len() ==> #[trigger] hkey(s[i]) != #[trigger] hkey(s[j]),
    ensures
        forall|i: int|
            0 <= i < s.len() ==> header_map(s).contains_key(#[trigger] hkey(s[i]))
                && header_map(s)[hkey(s[i])] == s[i]@,
        forall|k: (int, int)|
            #[trigger] header_map(s).contains_key(k) ==> exists|i: int|
                0 <= i < s.len() && hkey(#[trigger] s[i]) == k,
    decreases s.len(),
{
    if s.len() > 0 {
        let d = s.drop_last();
        lemma_header_map_props(d);
        assert(forall|i: int| 0 <= i < d.len() ==> d[i] == s[i]);
        assert(forall|i: int|
            0 <= i < s.len() - 1 ==> #[trigger] hkey(s[i]) != hkey(s[s.len() - 1]));
        assert(forall|k: (int, int)|
            #[trigger] header_map(s).contains_key(k) ==> exists|i: int|
                0 <= i < s.len() && hkey(#[trigger] s[i]) == k) by {
            assert forall|k: (int, int)| #[trigger] header_map(s).contains_key(k) implies exists|
                i: int,
            | 0 <= i < s.len() && hkey(#[trigger] s[i]) == k by {
                if k == hkey(s.last()) {
                    assert(hkey(s[s.len() - 1]) == k);
                } else {
                    assert(header_map(d).contains_key(k));
                    let i = choose|i: int| 0 <= i < d.len() && hkey(#[trigger] d[i]) == k;
                    assert(hkey(s[i]) == k);
                }
            }
        }
    }
}

/// Inserting a record with a fresh key anywhere in the sequence inserts
/// it into the denoted map.
pub proof fn lemma_header_map_insert(s: Seq<MessageHeader>, p: int, m: MessageHeader)
    requires
        0 <= p <= s.len(),
        forall|i: int| 0 <= i < s.len() ==> #[trigger] hkey(s[i]) != hkey(m),
    ensures
        header_map(s.insert(p, m)) == header_map(s).insert(hkey(m), m@),
    decreases s.len(),
{
    let t = s.insert(p, m);
    if p == s.len() {
        assert(t =~= s.push(m));
        assert(t.drop_last() =~= s);
        assert(header_map(t) == header_map(s).insert(hkey(m), m@));
    } else {
        assert(t.last() == s.last());
        assert(t.drop_last() =~= s.drop_last().insert(p, m));
        assert(forall|i: int|
            0 <= i < s.drop_last().len() ==> #[trigger] hkey(s.drop_last()[i]) != hkey(m));
        lemma_header_map_insert(s.drop_last(), p, m);
        assert(hkey(s.last()) != hkey(m));
        assert(header_map(t) == header_map(s.drop_last()).insert(hkey(m), m@).insert(
            hkey(s.last()),
            s.last()@,
        ));
        assert(header_map(s.drop_last()).insert(hkey(m), m@).insert(hkey(s.last()), s.last()@)
            =~= header_map(s.drop_last()).insert(hkey(s.last()), s.last()@).insert(hkey(m), m@));
    }
}

/// Removing the record at index `j` removes its key from the denoted
/// map, provided keys are unique.
pub proof fn lemma_header_map_remove(s: Seq<MessageHeader>, j: int)
    requires
        forall|i: int, l: int| 0 <= i < l < s.len() ==> #[trigger] hkey(s[i]) != #[trigger] hkey(s[l]),
        0 <= j < s.len(),
    ensures
        header_map(s.remove(j)) == header_map(s).remove(hkey(s[j])),
    decreases s.len(),
{
    let d = s.drop_last();
    if j == s.len() - 1 {
        assert(s.remove(j) =~= d);
        lemma_header_map_props(d);
        assert(forall|i: int| 0 <= i < d.len() ==> #[trigger] hkey(d[i]) != hkey(s[j]));
        assert(!header_map(d).contains_key(hkey(s[j])));
        assert(header_map(s).remove(hkey(s[j])) =~= header_map(d));
    } else {
        let t = s.remove(j);
        assert(t.last() == s.last());
        assert(t.drop_last() =~= d.remove(j));
        lemma_header_map_remove(d, j);
        assert(d[j] == s[j]);
        assert(header_map(t) == header_map(d).remove(hkey(s[j])).insert(
            hkey(s.last()),
            s.last()@,
        ));
        assert(hkey(s.last()) != hkey(s[j]));
        assert(header_map(d).remove(hkey(s[j])).insert(hkey(s.last()), s.last()@)
            =~= header_map(d).insert(hkey(s.last()), s.last()@).remove(hkey(s[j])));
    }
}

/// With unique keys, `body_map` is exactly "some entry has this key",
/// and each entry's html is found under its key.
pub proof fn lemma_body_map_props(s: Seq<BodyEntry>)
    requires
        forall|i: int, j: int| 0 <= i < j < s.len() ==> #[trigger] bkey(s[i]) != #[trigger] bkey(s[j]),
    ensures
        forall|i: int|
            0 <= i < s.len() ==> body_map(s).contains_key(#[trigger] bkey(s[i]))
                && body_map(s)[bkey(s[i])] == s[i].html@,
        forall|k: (int, int)|
            #[trigger] body_map(s).contains_key(k) ==> exists|i: int|
                0 <= i < s.len() && bkey(#[trigger] s[i]) == k,
    decreases s.len(),
{
    if s.len() > 0 {
        let d = s.drop_last();
        lemma_body_map_props(d);
        assert(forall|i: int| 0 <= i < d.len() ==> d[i] == s[i]);
        assert(forall|k: (int, int)|
            #[trigger] body_map(s).contains_key(k) ==> exists|i: int|
                0 <= i < s.len() && bkey(#[trigger] s[i]) == k) by {
            assert forall|k: (int, int)| #[trigger] body_map(s).contains_key(k) implies exists|
                i: int,
            | 0 <= i < s.len() && bkey(#[trigger] s[i]) == k by {
                if k == bkey(s.last()) {
                    assert(bkey(s[s.len() - 1]) == k);
                } else {
                    assert(body_map(d).contains_key(k));
                    let i = choose|i: int| 0 <= i < d.len() && bkey(#[trigger] d[i]) == k;
                    assert(bkey(s[i]) == k);
                }
            }
        }
    }
}

/// Removing the entry at index `j` removes its key from the denoted
/// map, provided keys are unique.
pub proof fn lemma_body_map_remove(s: Seq<BodyEntry>, j: int)
    requires
        forall|i: int, l: int| 0 <= i < l < s.len() ==> #[trigger] bkey(s[i]) != #[trigger] bkey(s[l]),
        0 <= j < s.len(),
    ensures
        body_map(s.remove(j)) == body_map(s).remove(bkey(s[j])),
    decreases s.len(),
{
    let d = s.drop_last();
    if j == s.len() - 1 {
        assert(s.remove(j) =~= d);
        lemma_body_map_props(d);
        assert(forall|i: int| 0 <= i < d.len() ==> #[trigger] bkey(d[i]) != bkey(s[j]));
        assert(!body_map(d).contains_key(bkey(s[j])));
        assert(body_map(s).remove(bkey(s[j])) =~= body_map(d));
    } else {
        let t = s.remove(j);
        assert(t.last() == s.last());
        assert(t.drop_last() =~= d.remove(j));
        lemma_body_map_remove(d, j);
        assert(d[j] == s[j]);
        assert(body_map(t) == body_map(d).remove(bkey(s[j])).insert(bkey(s.last()), s.last().html@));
        assert(bkey(s.last()) != bkey(s[j]));
        assert(body_map(d).remove(bkey(s[j])).insert(bkey(s.last()), s.last().html@)
            =~= body_map(d).insert(bkey(s.last()), s.last().html@).remove(bkey(s[j])));
    }
}


/// Up to `max` uncached recent entries: taken from the headers in
/// order, skipping every key that already has a cached body.
pub open spec fn spec_uncached(
    s: Seq<MessageHeader>,
    bm: Map<(int, int), Seq<char>>,
    max: int,
) -> Seq<(u32, u32)>
    decreases s.len(),
{
    if s.len() == 0 || max <= 0 {
        Seq::empty()
    } else if !bm.contains_key(hkey(s[0])) {
        seq![(s[0].uid, s[0].uid_validity)] + spec_uncached(s.skip(1), bm, max - 1)
    } else {
        spec_uncached(s.skip(1), bm, max)
    }
}

/// The uncached-recent query honours its bound and never returns a key
/// that the body cache already holds, and every entry it returns names
/// a cached header.
pub proof fn lemma_uncached_recent(s: Seq<MessageHeader>, bm: Map<(int, int), Seq<char>>, max: int)
    ensures
        max >= 0 ==> spec_uncached(s, bm, max).len() <= max,
        forall|x: int|
            0 <= x < spec_uncached(s, bm, max).len() ==> !bm.contains_key(
                (
                    (#[trigger] spec_uncached(s, bm, max)[x]).0 as int,
                    spec_uncached(s, bm, max)[x].1 as int,
                ),
            ),
        forall|x: int|
            0 <= x < spec_uncached(s, bm, max).len() ==> exists|i: int|
                0 <= i < s.len() && hkey(#[trigger] s[i]) == (
                    (#[trigger] spec_uncached(s, bm, max)[x]).0 as int,
                    spec_uncached(s, bm, max)[x].1 as int,
                ),
    decreases s.len(),
{
    let r = spec_uncached(s, bm, max);
    if s.len() == 0 || max <= 0 {
    } else {
        lemma_uncached_recent(s.skip(1), bm, max - 1);
        lemma_uncached_recent(s.skip(1), bm, max);
        assert(forall|i: int| 0 <= i < s.skip(1).len() ==> s.skip(1)[i] == s[i + 1]);
        if !bm.contains_key(hkey(s[0])) {
            let tail = spec_uncached(s.skip(1), bm, max - 1);
            assert(r[0] == (s[0].uid, s[0].uid_validity));
            assert(hkey(s[0]) == ((r[0].0 as int, r[0].1 as int)));
            assert(forall|x: int| 1 <= x < r.len() ==> r[x] == tail[x - 1]);
            assert(forall|x: int|
                0 <= x < r.len() ==> exists|i: int|
                    0 <= i < s.len() && hkey(#[trigger] s[i]) == (
                        (#[trigger] r[x]).0 as int,
                        r[x].1 as int,
                    )) by {
                assert forall|x: int| 0 <= x < r.len() implies exists|i: int|
                    0 <= i < s.len() && hkey(#[trigger] s[i]) == (
                        (#[trigger] r[x]).0 as int,
                        r[x].1 as int,
                    ) by {
                    if x == 0 {
                        assert(hkey(s[0]) == ((r[x].0 as int, r[x].1 as int)));
                    } else {
                        let i = choose|i: int|
                            0 <= i < s.skip(1).len() && hkey(#[trigger] s.skip(1)[i]) == (
                                (tail[x - 1].0 as int),
                                tail[x - 1].1 as int,
                            );
                        assert(hkey(s[i + 1]) == ((r[x].0 as int, r[x].1 as int)));
                    }
                }
            }
        } else {
            let tail = spec_uncached(s.skip(1), bm, max);
            assert(forall|x: int| 0 <= x < r.len() ==> r[x] == tail[x]);
            assert(forall|x: int|
                0 <= x < r.len() ==> exists|i: int|
                    0 <= i < s.len() && hkey(#[trigger] s[i]) == (
                        (#[trigger] r[x]).0 as int,
                        r[x].1 as int,
                    )) by {
                assert forall|x: int| 0 <= x < r.len() implies exists|i: int|
                    0 <= i < s.len() && hkey(#[trigger] s[i]) == (
                        (#[trigger] r[x]).0 as int,
                        r[x].1 as int,
                    ) by {
                    let i = choose|i: int|
                        0 <= i < s.skip(1).len() && hkey(#[trigger] s.skip(1)[i]) == (
                            (tail[x].0 as int),
                            tail[x].1 as int,
                        );
                    assert(hkey(s[i + 1]) == ((r[x].0 as int, r[x].1 as int)));
                }
            }
        }
    }
}

/// Cache keys always pair the uid with the generation: a body written
/// under one generation is invisible to lookups under any other
/// generation, so changing the mailbox generation invalidates every
/// lookup keyed by the old one.
pub proof fn lemma_generation_keying(
    bm: Map<(int, int), Seq<char>>,
    uid: int,
    g_old: int,
    g_new: int,
    html: Seq<char>,
)
    requires
        g_old != g_new,
    ensures
        bm.insert((uid, g_old), html).contains_key((uid, g_new)) == bm.contains_key((uid, g_new)),
        bm.contains_key((uid, g_new)) ==> bm.insert((uid, g_old), html)[(uid, g_new)] == bm[(
            uid,
            g_new,
        )],
{
}

/// Two writes of the same rendered body to the same `(uid, generation)`
/// key are idempotent, and the key afterwards holds exactly that body:
/// concurrent cache fills that race on one message cannot corrupt the
/// store, whichever write lands last.
pub proof fn lemma_double_write_same_body(
    bm: Map<(int, int), Seq<char>>,
    k: (int, int),
    html: Seq<char>,
)
    ensures
        bm.insert(k, html).insert(k, html) == bm.insert(k, html),
        bm.insert(k, html).contains_key(k),
        bm.insert(k, html)[k] == html,
{
    assert(bm.insert(k, html).insert(k, html) =~= bm.insert(k, html));
}

} // verus!
