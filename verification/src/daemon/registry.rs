//! The bus's connections and the ownership of its names: for each
//! well-known name a queue whose first entry is the primary owner.

use vstd::prelude::*;

verus! {

broadcast use vstd::std_specs::vec::group_vec_axioms;

// ---------------------------------------------------------------------------
// Tables kept as lists of (key, value) pairs with distinct keys
// ---------------------------------------------------------------------------

/// Whether no key occurs twice in `s`.
pub open spec fn keys_unique<V>(s: Seq<(Seq<char>, V)>) -> bool {
    forall|i: int, j: int| 0 <= i < j < s.len() ==> #[trigger] s[i].0 != #[trigger] s[j].0
}

/// The map that a list of pairs stands for.
pub open spec fn seq_map<V>(s: Seq<(Seq<char>, V)>) -> Map<Seq<char>, V>
    decreases s.len(),
{
    if s.len() == 0 {
        Map::empty()
    } else {
        seq_map(s.drop_last()).insert(s.last().0, s.last().1)
    }
}

/// The keys of a list of pairs hold exactly the keys of its map.
pub proof fn lemma_seq_map_dom<V>(s: Seq<(Seq<char>, V)>, k: Seq<char>)
    ensures
        seq_map(s).dom().contains(k) <==> exists|i: int| 0 <= i < s.len() && (#[trigger] s[i]).0 == k,
    decreases s.len(),
{
    if s.len() > 0 {
        let init = s.drop_last();
        lemma_seq_map_dom(init, k);
        if seq_map(s).dom().contains(k) {
            if k == s.last().0 {
                assert(s[s.len() - 1].0 == k);
            } else {
                let i = choose|i: int| 0 <= i < init.len() && (#[trigger] init[i]).0 == k;
                assert(s[i] == init[i]);
            }
        }
        if exists|i: int| 0 <= i < s.len() && (#[trigger] s[i]).0 == k {
            let i = choose|i: int| 0 <= i < s.len() && (#[trigger] s[i]).0 == k;
            if i < s.len() - 1 {
                assert(init[i] == s[i]);
            }
        }
    }
}

/// With distinct keys, the map gives each key the value beside it.
pub proof fn lemma_seq_map_index<V>(s: Seq<(Seq<char>, V)>, i: int)
    requires
        keys_unique(s),
        0 <= i < s.len(),
    ensures
        seq_map(s).dom().contains(s[i].0),
        seq_map(s)[s[i].0] == s[i].1,
    decreases s.len(),
{
    if i < s.len() - 1 {
        let init = s.drop_last();
        assert(init[i] == s[i]);
        assert(keys_unique(init)) by {
            assert forall|a: int, b: int| 0 <= a < b < init.len() implies #[trigger] init[a].0
                != #[trigger] init[b].0 by {
                assert(init[a] == s[a] && init[b] == s[b]);
            }
        }
        lemma_seq_map_index(init, i);
        assert(s[i].0 != s[s.len() - 1].0);
    }
}

pub proof fn lemma_keys_unique_init<V>(s: Seq<(Seq<char>, V)>)
    requires
        keys_unique(s),
        s.len() > 0,
    ensures
        keys_unique(s.drop_last()),
        !seq_map(s.drop_last()).dom().contains(s.last().0),
{
    let init = s.drop_last();
    assert forall|a: int, b: int| 0 <= a < b < init.len() implies #[trigger] init[a].0
        != #[trigger] init[b].0 by {
        assert(init[a] == s[a] && init[b] == s[b]);
    }
    lemma_seq_map_dom(init, s.last().0);
    if seq_map(init).dom().contains(s.last().0) {
        let i = choose|i: int| 0 <= i < init.len() && (#[trigger] init[i]).0 == s.last().0;
        assert(init[i] == s[i]);
    }
}

/// Replacing the value beside a key replaces it in the map.
pub proof fn lemma_seq_map_update<V>(s: Seq<(Seq<char>, V)>, i: int, v: V)
    requires
        keys_unique(s),
        0 <= i < s.len(),
    ensures
        keys_unique(s.update(i, (s[i].0, v))),
        seq_map(s.update(i, (s[i].0, v))) == seq_map(s).insert(s[i].0, v),
{
    let t = s.update(i, (s[i].0, v));
    assert forall|a: int, b: int| 0 <= a < b < t.len() implies #[trigger] t[a].0 != #[trigger] t[b].0 by {
        assert(t[a].0 == s[a].0 && t[b].0 == s[b].0);
    }
    assert forall|k: Seq<char>| #[trigger] seq_map(t).dom().contains(k) <==> seq_map(s).insert(
        s[i].0,
        v,
    ).dom().contains(k) by {
        lemma_seq_map_dom(t, k);
        lemma_seq_map_dom(s, k);
        if exists|j: int| 0 <= j < s.len() && (#[trigger] s[j]).0 == k {
            let j = choose|j: int| 0 <= j < s.len() && (#[trigger] s[j]).0 == k;
            assert(t[j].0 == k);
        }
        if exists|j: int| 0 <= j < t.len() && (#[trigger] t[j]).0 == k {
            let j = choose|j: int| 0 <= j < t.len() && (#[trigger] t[j]).0 == k;
            assert(s[j].0 == k);
        }
    }
    assert forall|k: Seq<char>| #[trigger] seq_map(t).dom().contains(k) implies seq_map(t)[k]
        == seq_map(s).insert(s[i].0, v)[k] by {
        lemma_seq_map_dom(t, k);
        let j = choose|j: int| 0 <= j < t.len() && (#[trigger] t[j]).0 == k;
        lemma_seq_map_index(t, j);
        if j != i {
            lemma_seq_map_index(s, j);
        }
    }
    assert(seq_map(t) =~= seq_map(s).insert(s[i].0, v));
}

/// Dropping a pair drops its key from the map.
pub proof fn lemma_seq_map_remove<V>(s: Seq<(Seq<char>, V)>, i: int)
    requires
        keys_unique(s),
        0 <= i < s.len(),
    ensures
        keys_unique(s.remove(i)),
        seq_map(s.remove(i)) == seq_map(s).remove(s[i].0),
{
    let t = s.remove(i);
    assert forall|a: int, b: int| 0 <= a < b < t.len() implies #[trigger] t[a].0 != #[trigger] t[b].0 by {
        let a2 = if a < i {
            a
        } else {
            a + 1
        };
        let b2 = if b < i {
            b
        } else {
            b + 1
        };
        assert(t[a] == s[a2] && t[b] == s[b2]);
    }
    assert forall|k: Seq<char>| #[trigger] seq_map(t).dom().contains(k) <==> seq_map(s).remove(
        s[i].0,
    ).dom().contains(k) by {
        lemma_seq_map_dom(t, k);
        lemma_seq_map_dom(s, k);
        if exists|j: int| 0 <= j < s.len() && (#[trigger] s[j]).0 == k {
            let j = choose|j: int| 0 <= j < s.len() && (#[trigger] s[j]).0 == k;
            if j < i {
                assert(t[j] == s[j]);
            } else if j > i {
                assert(t[j - 1] == s[j]);
            }
        }
        if exists|j: int| 0 <= j < t.len() && (#[trigger] t[j]).0 == k {
            let j = choose|j: int| 0 <= j < t.len() && (#[trigger] t[j]).0 == k;
            if j < i {
                assert(t[j] == s[j]);
            } else {
                assert(t[j] == s[j + 1]);
            }
        }
    }
    assert forall|k: Seq<char>| #[trigger] seq_map(t).dom().contains(k) implies seq_map(t)[k]
        == seq_map(s).remove(s[i].0)[k] by {
        lemma_seq_map_dom(t, k);
        let j = choose|j: int| 0 <= j < t.len() && (#[trigger] t[j]).0 == k;
        lemma_seq_map_index(t, j);
        if j < i {
            assert(t[j] == s[j]);
            lemma_seq_map_index(s, j);
        } else {
            assert(t[j] == s[j + 1]);
            lemma_seq_map_index(s, j + 1);
        }
    }
    assert(seq_map(t) =~= seq_map(s).remove(s[i].0));
}

/// Adding a pair with a new key keeps the keys distinct.
pub proof fn lemma_seq_map_push<V>(s: Seq<(Seq<char>, V)>, k: Seq<char>, v: V)
    requires
        keys_unique(s),
        !seq_map(s).dom().contains(k),
    ensures
        keys_unique(s.push((k, v))),
        seq_map(s.push((k, v))) == seq_map(s).insert(k, v),
{
    let t = s.push((k, v));
    assert(t.drop_last() =~= s);
    assert forall|a: int, b: int| 0 <= a < b < t.len() implies #[trigger] t[a].0 != #[trigger] t[b].0 by {
        if b == s.len() {
            assert(t[a] == s[a]);
            lemma_seq_map_dom(s, k);
        } else {
            assert(t[a] == s[a] && t[b] == s[b]);
        }
    }
}

/// With distinct keys, the map has as many keys as the list has pairs.
pub proof fn lemma_seq_map_len<V>(s: Seq<(Seq<char>, V)>)
    requires
        keys_unique(s),
    ensures
        seq_map(s).dom().finite(),
        seq_map(s).dom().len() == s.len(),
    decreases s.len(),
{
    if s.len() > 0 {
        lemma_keys_unique_init(s);
        lemma_seq_map_len(s.drop_last());
    }
}

// ---------------------------------------------------------------------------
// Queues of a name
// ---------------------------------------------------------------------------

/// `RequestName` flag: the owner lets a later request take the name.
pub const FLAG_ALLOW_REPLACEMENT: u32 = 0x1;
/// `RequestName` flag: take the name from an owner that allows it.
pub const FLAG_REPLACE_EXISTING: u32 = 0x2;
/// `RequestName` flag: do not wait in the queue.
pub const FLAG_DO_NOT_QUEUE: u32 = 0x4;

/// `RequestName` reply: the caller now owns the name.
pub const REQUEST_REPLY_PRIMARY_OWNER: u32 = 1;
/// `RequestName` reply: the caller waits in the name's queue.
pub const REQUEST_REPLY_IN_QUEUE: u32 = 2;
/// `RequestName` reply: the name has an owner and the caller would not wait.
pub const REQUEST_REPLY_EXISTS: u32 = 3;
/// `RequestName` reply: the caller owned the name already.
pub const REQUEST_REPLY_ALREADY_OWNER: u32 = 4;

/// `ReleaseName` reply: the caller no longer owns or waits for the name.
pub const RELEASE_REPLY_RELEASED: u32 = 1;
/// `ReleaseName` reply: nobody owns the name.
pub const RELEASE_REPLY_NON_EXISTENT: u32 = 2;
/// `ReleaseName` reply: the caller neither owns nor waits for the name.
pub const RELEASE_REPLY_NOT_OWNER: u32 = 3;

/// One connection in the queue of a name.
#[derive(Debug, Clone)]
pub struct QueueEntry {
    pub unique_name: String,
    pub allow_replacement: bool,
    pub do_not_queue: bool,
}

/// The model of a queue entry.
pub struct QueueEntrySpec {
    pub unique_name: Seq<char>,
    pub allow_replacement: bool,
    pub do_not_queue: bool,
}

impl View for QueueEntry {
    type V = QueueEntrySpec;

    open spec fn view(&self) -> QueueEntrySpec {
        QueueEntrySpec {
            unique_name: self.unique_name@,
            allow_replacement: self.allow_replacement,
            do_not_queue: self.do_not_queue,
        }
    }
}

/// The model of a queue.
pub open spec fn queue_view(q: Seq<QueueEntry>) -> Seq<QueueEntrySpec> {
    Seq::new(q.len(), |i: int| q[i]@)
}

/// Whether `who` is in the queue `q`.
pub open spec fn queue_has(q: Seq<QueueEntrySpec>, who: Seq<char>) -> bool {
    exists|i: int| 0 <= i < q.len() && (#[trigger] q[i]).unique_name == who
}

/// The queue `q` without `who`, the others in order.
pub open spec fn without(q: Seq<QueueEntrySpec>, who: Seq<char>) -> Seq<QueueEntrySpec>
    decreases q.len(),
{
    if q.len() == 0 {
        Seq::empty()
    } else {
        (if q[0].unique_name == who {
            Seq::empty()
        } else {
            seq![q[0]]
        }) + without(q.skip(1), who)
    }
}

/// Whether a queue is as every queue of the table is: not empty, and no
/// connection in it twice.
pub open spec fn queue_ok(q: Seq<QueueEntrySpec>) -> bool {
    &&& q.len() > 0
    &&& forall|i: int, j: int| 0 <= i < j < q.len() ==> #[trigger] q[i].unique_name != #[trigger] q[j].unique_name
}

/// The owner of a name with queue `q`: the first in the queue.
pub open spec fn first_owner(q: Seq<QueueEntrySpec>) -> Option<Seq<char>> {
    if q.len() > 0 {
        Some(q[0].unique_name)
    } else {
        None
    }
}

pub proof fn lemma_without_append(a: Seq<QueueEntrySpec>, b: Seq<QueueEntrySpec>, who: Seq<char>)
    ensures
        without(a + b, who) == without(a, who) + without(b, who),
    decreases a.len(),
{
    if a.len() == 0 {
        assert(a + b =~= b);
    } else {
        assert((a + b).skip(1) =~= a.skip(1) + b);
        assert((a + b)[0] == a[0]);
        lemma_without_append(a.skip(1), b, who);
    }
}

pub proof fn lemma_without_one(e: QueueEntrySpec, who: Seq<char>)
    ensures
        without(seq![e], who) == if e.unique_name == who {
            Seq::<QueueEntrySpec>::empty()
        } else {
            seq![e]
        },
{
    assert(seq![e].skip(1) =~= Seq::<QueueEntrySpec>::empty());
    assert(without(Seq::<QueueEntrySpec>::empty(), who) == Seq::<QueueEntrySpec>::empty());
    let h = if e.unique_name == who {
        Seq::<QueueEntrySpec>::empty()
    } else {
        seq![e]
    };
    assert(h + Seq::<QueueEntrySpec>::empty() =~= h);
}

/// What is left of a queue without `who`: the others, in order, and not
/// `who`.
pub proof fn lemma_without(q: Seq<QueueEntrySpec>, who: Seq<char>)
    ensures
        without(q, who).len() <= q.len(),
        !queue_has(without(q, who), who),
        forall|x: Seq<char>| x != who ==> (queue_has(without(q, who), x) <==> queue_has(q, x)),
        (forall|i: int, j: int| 0 <= i < j < q.len() ==> #[trigger] q[i].unique_name != #[trigger] q[j].unique_name)
            ==> (forall|i: int, j: int|
            0 <= i < j < without(q, who).len() ==> #[trigger] without(q, who)[i].unique_name != #[trigger] without(
                q,
                who,
            )[j].unique_name),
        queue_has(q, who) ==> without(q, who).len() < q.len(),
        !queue_has(q, who) ==> without(q, who) == q,
    decreases q.len(),
{
    if q.len() > 0 {
        let t = q.skip(1);
        lemma_without(t, who);
        let w = without(q, who);
        let wt = without(t, who);
        let h = if q[0].unique_name == who {
            Seq::<QueueEntrySpec>::empty()
        } else {
            seq![q[0]]
        };
        assert(w == h + wt);
        assert forall|x: Seq<char>| queue_has(w, x) <==> (queue_has(h, x) || queue_has(wt, x)) by {
            if queue_has(w, x) {
                let i = choose|i: int| 0 <= i < w.len() && (#[trigger] w[i]).unique_name == x;
                if i >= h.len() {
                    assert(wt[i - h.len()] == w[i]);
                }
            }
            if queue_has(wt, x) {
                let i = choose|i: int| 0 <= i < wt.len() && (#[trigger] wt[i]).unique_name == x;
                assert(w[i + h.len()] == wt[i]);
            }
            if queue_has(h, x) {
                assert(w[0] == h[0]);
            }
        }
        assert forall|x: Seq<char>| queue_has(q, x) <==> (q[0].unique_name == x || queue_has(t, x)) by {
            if queue_has(q, x) {
                let i = choose|i: int| 0 <= i < q.len() && (#[trigger] q[i]).unique_name == x;
                if i > 0 {
                    assert(t[i - 1] == q[i]);
                }
            }
            if queue_has(t, x) {
                let i = choose|i: int| 0 <= i < t.len() && (#[trigger] t[i]).unique_name == x;
                assert(q[i + 1] == t[i]);
            }
            if q[0].unique_name == x {
                assert(q[0].unique_name == x);
            }
        }
        assert forall|x: Seq<char>| x != who implies (queue_has(w, x) <==> queue_has(q, x)) by {
            if q[0].unique_name == x {
                assert(h[0].unique_name == x);
            }
            if queue_has(h, x) {
                let i = choose|i: int| 0 <= i < h.len() && (#[trigger] h[i]).unique_name == x;
                assert(h[i] == q[0]);
            }
        }
        if forall|i: int, j: int| 0 <= i < j < q.len() ==> #[trigger] q[i].unique_name != #[trigger] q[j].unique_name {
            assert forall|i: int, j: int| 0 <= i < j < t.len() implies #[trigger] t[i].unique_name
                != #[trigger] t[j].unique_name by {
                assert(t[i] == q[i + 1] && t[j] == q[j + 1]);
            }
            assert forall|i: int, j: int| 0 <= i < j < w.len() implies #[trigger] w[i].unique_name
                != #[trigger] w[j].unique_name by {
                if i >= h.len() {
                    assert(w[i] == wt[i - h.len()] && w[j] == wt[j - h.len()]);
                } else {
                    assert(w[i] == q[0]);
                    assert(w[j] == wt[j - 1]);
                    assert(queue_has(wt, w[j].unique_name));
                    assert(queue_has(t, w[j].unique_name));
                    let k = choose|k: int| 0 <= k < t.len() && (#[trigger] t[k]).unique_name == w[j].unique_name;
                    assert(t[k] == q[k + 1]);
                }
            }
        }
        if !queue_has(q, who) {
            assert(q[0].unique_name != who);
            assert(q =~= seq![q[0]] + t);
        }
    }
}

/// The `RequestName` reply and the new queue of a name whose queue was `q`
/// (`None`: nobody owns it), asked for by `who` with `flags`.
pub open spec fn request_result(q: Option<Seq<QueueEntrySpec>>, who: Seq<char>, flags: u32) -> (
    u32,
    Seq<QueueEntrySpec>,
) {
    let entry = QueueEntrySpec {
        unique_name: who,
        allow_replacement: flags & FLAG_ALLOW_REPLACEMENT != 0,
        do_not_queue: flags & FLAG_DO_NOT_QUEUE != 0,
    };
    match q {
        None => (REQUEST_REPLY_PRIMARY_OWNER, seq![entry]),
        Some(q) => if q.len() == 0 {
            (REQUEST_REPLY_PRIMARY_OWNER, seq![entry])
        } else if q[0].unique_name == who {
            (REQUEST_REPLY_ALREADY_OWNER, q)
        } else if flags & FLAG_REPLACE_EXISTING != 0 && q[0].allow_replacement {
            (
                REQUEST_REPLY_PRIMARY_OWNER,
                seq![entry] + without(q.skip(1), who) + if q[0].do_not_queue {
                    Seq::empty()
                } else {
                    seq![q[0]]
                },
            )
        } else if flags & FLAG_DO_NOT_QUEUE != 0 {
            (REQUEST_REPLY_EXISTS, q)
        } else if queue_has(q, who) {
            (REQUEST_REPLY_IN_QUEUE, q)
        } else {
            (
                REQUEST_REPLY_IN_QUEUE,
                q.push(
                    QueueEntrySpec {
                        unique_name: who,
                        allow_replacement: flags & FLAG_ALLOW_REPLACEMENT != 0,
                        do_not_queue: false,
                    },
                ),
            )
        },
    }
}

/// Whether the owner of the name changes by the request.
pub open spec fn request_changes_owner(q: Option<Seq<QueueEntrySpec>>, who: Seq<char>, flags: u32) -> bool {
    request_result(q, who, flags).0 == REQUEST_REPLY_PRIMARY_OWNER
}

/// A request keeps a queue as the table needs it.
pub proof fn lemma_request_ok(q: Option<Seq<QueueEntrySpec>>, who: Seq<char>, flags: u32)
    requires
        q matches Some(x) ==> queue_ok(x),
    ensures
        queue_ok(request_result(q, who, flags).1),
{
    let r = request_result(q, who, flags).1;
    match q {
        None => {},
        Some(q) => {
            if q[0].unique_name != who && flags & FLAG_REPLACE_EXISTING != 0 && q[0].allow_replacement {
                let t = q.skip(1);
                assert forall|i: int, j: int| 0 <= i < j < t.len() implies #[trigger] t[i].unique_name
                    != #[trigger] t[j].unique_name by {
                    assert(t[i] == q[i + 1] && t[j] == q[j + 1]);
                }
                lemma_without(t, who);
                let w = without(t, who);
                let entry = r[0];
                let tail = if q[0].do_not_queue {
                    Seq::<QueueEntrySpec>::empty()
                } else {
                    seq![q[0]]
                };
                assert(r == seq![entry] + w + tail);
                assert(!queue_has(t, q[0].unique_name)) by {
                    if queue_has(t, q[0].unique_name) {
                        let k = choose|k: int| 0 <= k < t.len() && (#[trigger] t[k]).unique_name == q[0].unique_name;
                        assert(t[k] == q[k + 1]);
                    }
                }
                assert forall|i: int, j: int| 0 <= i < j < r.len() implies #[trigger] r[i].unique_name
                    != #[trigger] r[j].unique_name by {
                    if i == 0 {
                        if j <= w.len() {
                            assert(r[j] == w[j - 1]);
                            assert(queue_has(w, r[j].unique_name));
                        } else {
                            assert(r[j] == q[0]);
                        }
                    } else if i <= w.len() {
                        assert(r[i] == w[i - 1]);
                        if j <= w.len() {
                            assert(r[j] == w[j - 1]);
                        } else {
                            assert(r[j] == q[0]);
                            assert(queue_has(w, r[i].unique_name));
                            assert(r[i].unique_name != who);
                        }
                    }
                }
            } else if q[0].unique_name != who && !(flags & FLAG_DO_NOT_QUEUE != 0) && !queue_has(q, who) {
                assert forall|i: int, j: int| 0 <= i < j < r.len() implies #[trigger] r[i].unique_name
                    != #[trigger] r[j].unique_name by {
                    if j == q.len() {
                        assert(r[i] == q[i]);
                    } else {
                        assert(r[i] == q[i] && r[j] == q[j]);
                    }
                }
            }
        },
    }
}

/// What a `RequestName` gives: where the reply is "primary owner" or
/// "already owner" the caller owns the name afterwards; where it is "in
/// queue" or "exists" the owner stays who it was, and "in queue" leaves the
/// caller in the queue; an owner displaced by a replacement stays queued
/// unless it asked not to be.
pub proof fn request_name_outcomes(q: Option<Seq<QueueEntrySpec>>, who: Seq<char>, flags: u32)
    requires
        q matches Some(x) ==> queue_ok(x),
    ensures
        ({
            let (code, q2) = request_result(q, who, flags);
            &&& (code == REQUEST_REPLY_PRIMARY_OWNER || code == REQUEST_REPLY_ALREADY_OWNER) ==> first_owner(q2) == Some(who)
            &&& (code == REQUEST_REPLY_IN_QUEUE || code == REQUEST_REPLY_EXISTS) ==> (q matches Some(x) && first_owner(q2) == first_owner(x))
            &&& code == REQUEST_REPLY_IN_QUEUE ==> queue_has(q2, who)
            &&& code == REQUEST_REPLY_ALREADY_OWNER ==> q == Some(q2)
            &&& (q matches Some(x) ==> ((code == REQUEST_REPLY_PRIMARY_OWNER && !x[0].do_not_queue && x[0].unique_name != who) ==> queue_has(q2, x[0].unique_name)))
        }),
{
    let (code, q2) = request_result(q, who, flags);
    match q {
        None => {},
        Some(x) => {
            if code == REQUEST_REPLY_IN_QUEUE && !queue_has(x, who) {
                assert(q2[x.len() as int].unique_name == who);
            }
            if code == REQUEST_REPLY_PRIMARY_OWNER && !x[0].do_not_queue && x[0].unique_name != who {
                assert(q2[q2.len() - 1] == x[0]);
            }
        },
    }
}

// ---------------------------------------------------------------------------
// The registry
// ---------------------------------------------------------------------------

/// A change of a name's owner, to be announced by `NameOwnerChanged`.
#[derive(Debug, Clone)]
pub struct NameOwnerChange {
    pub name: String,
    pub old_owner: Option<String>,
    pub new_owner: Option<String>,
}

/// The model of an ownership change.
pub struct ChangeSpec {
    pub name: Seq<char>,
    pub old_owner: Option<Seq<char>>,
    pub new_owner: Option<Seq<char>>,
}

/// The text of an optional string.
pub open spec fn opt_text(o: Option<String>) -> Option<Seq<char>> {
    match o {
        Some(s) => Some(s@),
        None => None,
    }
}

impl View for NameOwnerChange {
    type V = ChangeSpec;

    open spec fn view(&self) -> ChangeSpec {
        ChangeSpec { name: self.name@, old_owner: opt_text(self.old_owner), new_owner: opt_text(self.new_owner) }
    }
}

/// The models of some changes.
pub open spec fn changes_view(v: Seq<NameOwnerChange>) -> Seq<ChangeSpec> {
    Seq::new(v.len(), |i: int| v[i]@)
}

/// The connections on the bus (by unique name, with their user ids), the
/// queues of the well-known names, the number the next unique name will
/// carry, and the number of connections still authenticating.
pub struct Registry {
    connections: Vec<(String, u32)>,
    names: Vec<(String, Vec<QueueEntry>)>,
    next_id: u64,
    incomplete: u32,
}

/// The model of the registry.
pub struct RegistrySpec {
    pub connections: Map<Seq<char>, u32>,
    pub names: Map<Seq<char>, Seq<QueueEntrySpec>>,
    pub next_id: u64,
    pub incomplete: u32,
}

/// Whether every queue of a name table is as it should be.
pub open spec fn names_ok(m: Map<Seq<char>, Seq<QueueEntrySpec>>) -> bool {
    forall|n: Seq<char>| #[trigger] m.dom().contains(n) ==> queue_ok(m[n])
}

/// The queue of `name` in the table `m`, where it has one.
pub open spec fn queue_of(m: Map<Seq<char>, Seq<QueueEntrySpec>>, name: Seq<char>) -> Option<Seq<QueueEntrySpec>> {
    if m.dom().contains(name) {
        Some(m[name])
    } else {
        None
    }
}

/// The owner of `name`: a unique name (one beginning with `:`) owns itself
/// while its connection is on the bus; a well-known name is owned by the
/// first in its queue.
pub open spec fn owner_of(r: RegistrySpec, name: Seq<char>) -> Option<Seq<char>> {
    if name.len() > 0 && name[0] == ':' {
        if r.connections.dom().contains(name) {
            Some(name)
        } else {
            None
        }
    } else if r.names.dom().contains(name) {
        first_owner(r.names[name])
    } else {
        None
    }
}

impl Registry {
    closed spec fn conn_seq(&self) -> Seq<(Seq<char>, u32)> {
        Seq::new(self.connections@.len(), |i: int| (self.connections@[i].0@, self.connections@[i].1))
    }

    closed spec fn name_seq(&self) -> Seq<(Seq<char>, Seq<QueueEntrySpec>)> {
        Seq::new(self.names@.len(), |i: int| (self.names@[i].0@, queue_view(self.names@[i].1@)))
    }

    /// The registry's invariant: no connection or name twice, every queue
    /// as it should be.
    pub closed spec fn wf(&self) -> bool {
        &&& keys_unique(self.conn_seq())
        &&& keys_unique(self.name_seq())
        &&& forall|i: int| 0 <= i < self.name_seq().len() ==> queue_ok(#[trigger] self.name_seq()[i].1)
    }
}

impl View for Registry {
    type V = RegistrySpec;

    closed spec fn view(&self) -> RegistrySpec {
        RegistrySpec {
            connections: seq_map(self.conn_seq()),
            names: seq_map(self.name_seq()),
            next_id: self.next_id,
            incomplete: self.incomplete,
        }
    }
}

/// Every name the registry keeps has a queue with an owner and no
/// connection in it twice, and the tables are finite.
pub proof fn registry_invariant(r: &Registry)
    requires
        r.wf(),
    ensures
        names_ok(r@.names),
        r@.names.dom().finite(),
        r@.connections.dom().finite(),
{
    lemma_seq_map_len(r.name_seq());
    lemma_seq_map_len(r.conn_seq());
    assert forall|n: Seq<char>| #[trigger] r@.names.dom().contains(n) implies queue_ok(r@.names[n]) by {
        lemma_seq_map_dom(r.name_seq(), n);
        let i = choose|i: int| 0 <= i < r.name_seq().len() && (#[trigger] r.name_seq()[i]).0 == n;
        lemma_seq_map_index(r.name_seq(), i);
    }
}

fn clone_entry(e: &QueueEntry) -> (r: QueueEntry)
    ensures
        r@ == e@,
{
    QueueEntry { unique_name: e.unique_name.clone(), allow_replacement: e.allow_replacement, do_not_queue: e.do_not_queue }
}

/// The entries of `q` from `from` on, without `who`.
fn queue_without(q: &Vec<QueueEntry>, from: usize, who: &str) -> (r: Vec<QueueEntry>)
    requires
        from <= q@.len(),
    ensures
        queue_view(r@) == without(queue_view(q@).skip(from as int), who@),
{
    let ghost qv = queue_view(q@);
    let mut out: Vec<QueueEntry> = Vec::new();
    let mut i = from;
    assert(qv.subrange(from as int, from as int) =~= Seq::<QueueEntrySpec>::empty());
    assert(queue_view(out@) =~= Seq::<QueueEntrySpec>::empty());
    while i < q.len()
        invariant
            from <= i <= q@.len(),
            qv == queue_view(q@),
            queue_view(out@) == without(qv.subrange(from as int, i as int), who@),
        decreases q.len() - i,
    {
        let ghost before = out@;
        proof {
            assert(qv.subrange(from as int, i + 1) =~= qv.subrange(from as int, i as int) + seq![qv[i as int]]);
            lemma_without_append(qv.subrange(from as int, i as int), seq![qv[i as int]], who@);
            lemma_without_one(qv[i as int], who@);
        }
        if !crate::text::str_eq(q[i].unique_name.as_str(), who) {
            out.push(clone_entry(&q[i]));
            assert(queue_view(out@) =~= queue_view(before) + seq![qv[i as int]]);
        } else {
            assert(without(qv.subrange(from as int, i as int), who@) + Seq::<QueueEntrySpec>::empty()
                =~= without(qv.subrange(from as int, i as int), who@));
        }
        i = i + 1;
    }
    assert(qv.subrange(from as int, q@.len() as int) =~= qv.skip(from as int));
    out
}

fn in_queue(q: &Vec<QueueEntry>, who: &str) -> (b: bool)
    ensures
        b == queue_has(queue_view(q@), who@),
{
    let mut i: usize = 0;
    while i < q.len()
        invariant
            i <= q@.len(),
            forall|j: int| 0 <= j < i ==> (#[trigger] queue_view(q@)[j]).unique_name != who@,
        decreases q.len() - i,
    {
        if crate::text::str_eq(q[i].unique_name.as_str(), who) {
            assert(queue_view(q@)[i as int].unique_name == who@);
            return true;
        }
        i = i + 1;
    }
    false
}

impl Registry {
    /// An empty registry; the first unique name will be `:1.1`.
    pub fn new() -> (r: Registry)
        ensures
            r.wf(),
            r@.connections == Map::<Seq<char>, u32>::empty(),
            r@.names == Map::<Seq<char>, Seq<QueueEntrySpec>>::empty(),
            r@.next_id == 1,
            r@.incomplete == 0,
    {
        let r = Registry { connections: Vec::new(), names: Vec::new(), next_id: 1, incomplete: 0 };
        assert(r.conn_seq() =~= Seq::<(Seq<char>, u32)>::empty());
        assert(r.name_seq() =~= Seq::<(Seq<char>, Seq<QueueEntrySpec>)>::empty());
        r
    }

    fn find_name(&self, name: &str) -> (r: Option<usize>)
        requires
            self.wf(),
        ensures
            match r {
                Some(i) => i < self.names@.len() && self.name_seq()[i as int].0 == name@ && self@.names.dom().contains(name@)
                    && self@.names[name@] == self.name_seq()[i as int].1,
                None => !self@.names.dom().contains(name@),
            },
    {
        let mut i: usize = 0;
        while i < self.names.len()
            invariant
                self.wf(),
                i <= self.names@.len(),
                forall|j: int| 0 <= j < i ==> (#[trigger] self.name_seq()[j]).0 != name@,
            decreases self.names.len() - i,
        {
            if crate::text::str_eq(self.names[i].0.as_str(), name) {
                proof {
                    lemma_seq_map_index(self.name_seq(), i as int);
                }
                return Some(i);
            }
            i = i + 1;
        }
        proof {
            lemma_seq_map_dom(self.name_seq(), name@);
        }
        None
    }

    fn find_connection(&self, name: &str) -> (r: Option<usize>)
        requires
            self.wf(),
        ensures
            match r {
                Some(i) => i < self.connections@.len() && self.conn_seq()[i as int].0 == name@
                    && self@.connections.dom().contains(name@),
                None => !self@.connections.dom().contains(name@),
            },
    {
        let mut i: usize = 0;
        while i < self.connections.len()
            invariant
                self.wf(),
                i <= self.connections@.len(),
                forall|j: int| 0 <= j < i ==> (#[trigger] self.conn_seq()[j]).0 != name@,
            decreases self.connections.len() - i,
        {
            if crate::text::str_eq(self.connections[i].0.as_str(), name) {
                proof {
                    lemma_seq_map_index(self.conn_seq(), i as int);
                }
                return Some(i);
            }
            i = i + 1;
        }
        proof {
            lemma_seq_map_dom(self.conn_seq(), name@);
        }
        None
    }

    /// The unique name of the owner of `name`.
    pub fn get_name_owner(&self, name: &str) -> (r: Option<String>)
        requires
            self.wf(),
        ensures
            opt_text(r) == owner_of(self@, name@),
    {
        let c = crate::text::chars_of(name);
        if c.len() > 0 && c[0] == ':' {
            return match self.find_connection(name) {
                Some(_) => Some(name.to_owned()),
                None => None,
            };
        }
        match self.find_name(name) {
            Some(i) => {
                proof {
                    assert(queue_ok(self.name_seq()[i as int].1));
                }
                Some(self.names[i].1[0].unique_name.clone())
            },
            None => None,
        }
    }

    /// Whether `name` has an owner.
    pub fn name_has_owner(&self, name: &str) -> (b: bool)
        requires
            self.wf(),
        ensures
            b == owner_of(self@, name@).is_some(),
    {
        self.get_name_owner(name).is_some()
    }

    /// The unique names in the queue of `name`, its owner first; none
    /// where nobody owns it.
    pub fn list_queued_owners(&self, name: &str) -> (v: Vec<String>)
        requires
            self.wf(),
        ensures
            v@.len() == match queue_of(self@.names, name@) {
                Some(q) => q.len(),
                None => 0,
            },
            forall|k: int| 0 <= k < v@.len() ==> #[trigger] v@[k]@ == self@.names[name@][k].unique_name,
    {
        let mut out: Vec<String> = Vec::new();
        match self.find_name(name) {
            Some(i) => {
                let q = &self.names[i].1;
                let mut k: usize = 0;
                while k < q.len()
                    invariant
                        k <= q@.len(),
                        out@.len() == k,
                        forall|j: int| 0 <= j < k ==> #[trigger] out@[j]@ == q@[j].unique_name@,
                    decreases q.len() - k,
                {
                    out.push(q[k].unique_name.clone());
                    k = k + 1;
                }
            },
            None => {},
        }
        out
    }

    /// Registers the connection `unique_name` of the user `uid`.
    pub fn add_connection(&mut self, unique_name: &str, uid: u32)
        requires
            old(self).wf(),
        ensures
            final(self).wf(),
            final(self)@.connections == old(self)@.connections.insert(unique_name@, uid),
            final(self)@.names == old(self)@.names,
            final(self)@.next_id == old(self)@.next_id,
            final(self)@.incomplete == old(self)@.incomplete,
    {
        match self.find_connection(unique_name) {
            Some(i) => {
                proof {
                    lemma_seq_map_update(self.conn_seq(), i as int, uid);
                }
                let ghost before = self.conn_seq();
                self.connections.set(i, (unique_name.to_owned(), uid));
                assert(self.conn_seq() =~= before.update(i as int, (before[i as int].0, uid)));
            },
            None => {
                proof {
                    lemma_seq_map_push(self.conn_seq(), unique_name@, uid);
                }
                let ghost before = self.conn_seq();
                self.connections.push((unique_name.to_owned(), uid));
                assert(self.conn_seq() =~= before.push((unique_name@, uid)));
            },
        }
    }

    /// The number of connections on the bus.
    pub fn connection_count(&self) -> (n: usize)
        requires
            self.wf(),
        ensures
            n == self@.connections.dom().len(),
    {
        proof {
            lemma_seq_map_len(self.conn_seq());
        }
        self.connections.len()
    }
}

/// The changes a `RequestName` announces: one where the caller became the
/// owner.
pub open spec fn request_changes(q: Option<Seq<QueueEntrySpec>>, name: Seq<char>, who: Seq<char>, flags: u32) -> Seq<
    ChangeSpec,
> {
    if request_result(q, who, flags).0 == REQUEST_REPLY_PRIMARY_OWNER {
        seq![
            ChangeSpec {
                name,
                old_owner: match q {
                    Some(x) => first_owner(x),
                    None => None,
                },
                new_owner: Some(who),
            },
        ]
    } else {
        Seq::empty()
    }
}

/// The reply to a request for a name with queue `q`, and the new queue
/// where it changes.
fn requested_queue(q: &Vec<QueueEntry>, who: &str, flags: u32) -> (r: (u32, Option<Vec<QueueEntry>>))
    requires
        queue_ok(queue_view(q@)),
    ensures
        r.0 == request_result(Some(queue_view(q@)), who@, flags).0,
        match r.1 {
            Some(nq) => queue_view(nq@) == request_result(Some(queue_view(q@)), who@, flags).1,
            None => queue_view(q@) == request_result(Some(queue_view(q@)), who@, flags).1,
        },
{
    let ghost qv = queue_view(q@);
    assert(qv[0] == q@[0]@);
    if crate::text::str_eq(q[0].unique_name.as_str(), who) {
        return (REQUEST_REPLY_ALREADY_OWNER, None);
    }
    if flags & FLAG_REPLACE_EXISTING != 0 && q[0].allow_replacement {
        let mut nq: Vec<QueueEntry> = Vec::new();
        nq.push(
            QueueEntry {
                unique_name: who.to_owned(),
                allow_replacement: flags & FLAG_ALLOW_REPLACEMENT != 0,
                do_not_queue: flags & FLAG_DO_NOT_QUEUE != 0,
            },
        );
        let ghost first = queue_view(nq@);
        let mut rest = queue_without(q, 1, who);
        let ghost rv = queue_view(rest@);
        nq.append(&mut rest);
        assert(queue_view(nq@) =~= first + rv);
        if !q[0].do_not_queue {
            let ghost mid = queue_view(nq@);
            nq.push(clone_entry(&q[0]));
            assert(queue_view(nq@) =~= mid + seq![qv[0]]);
        } else {
            assert(queue_view(nq@) =~= first + rv + Seq::<QueueEntrySpec>::empty());
        }
        return (REQUEST_REPLY_PRIMARY_OWNER, Some(nq));
    }
    if flags & FLAG_DO_NOT_QUEUE != 0 {
        return (REQUEST_REPLY_EXISTS, None);
    }
    if in_queue(q, who) {
        return (REQUEST_REPLY_IN_QUEUE, None);
    }
    let mut nq: Vec<QueueEntry> = Vec::new();
    let mut k: usize = 0;
    while k < q.len()
        invariant
            k <= q@.len(),
            qv == queue_view(q@),
            queue_view(nq@) == qv.take(k as int),
        decreases q.len() - k,
    {
        let ghost before = nq@;
        assert(queue_view(before).len() == before.len());
        assert(before.len() == k);
        let e = clone_entry(&q[k]);
        nq.push(e);
        assert(nq@ == before.push(e));
        assert(nq@.len() == k + 1);
        assert(queue_view(nq@) =~= qv.take(k + 1)) by {
            assert forall|j: int| 0 <= j < k + 1 implies queue_view(nq@)[j] == qv.take(k + 1)[j] by {
                if j < k {
                    assert(nq@[j] == before[j]);
                    assert(queue_view(before)[j] == qv.take(k as int)[j]);
                }
            }
        }
        k = k + 1;
    }
    let ghost before = queue_view(nq@);
    nq.push(
        QueueEntry {
            unique_name: who.to_owned(),
            allow_replacement: flags & FLAG_ALLOW_REPLACEMENT != 0,
            do_not_queue: false,
        },
    );
    assert(before =~= qv);
    assert(queue_view(nq@) =~= qv.push(
        QueueEntrySpec {
            unique_name: who@,
            allow_replacement: flags & FLAG_ALLOW_REPLACEMENT != 0,
            do_not_queue: false,
        },
    ));
    (REQUEST_REPLY_IN_QUEUE, Some(nq))
}

impl Registry {
    /// `RequestName`: `unique_name` asks for `name` with the `FLAG_*` bits
    /// `request_flags`. Gives the reply and the ownership changes to
    /// announce.
    pub fn request_name(&mut self, unique_name: &str, name: &str, request_flags: u32) -> (r: (
        u32,
        Vec<NameOwnerChange>,
    ))
        requires
            old(self).wf(),
        ensures
            final(self).wf(),
            r.0 == request_result(queue_of(old(self)@.names, name@), unique_name@, request_flags).0,
            final(self)@.names == old(self)@.names.insert(
                name@,
                request_result(queue_of(old(self)@.names, name@), unique_name@, request_flags).1,
            ),
            changes_view(r.1@) == request_changes(queue_of(old(self)@.names, name@), name@, unique_name@, request_flags),
            final(self)@.connections == old(self)@.connections,
            final(self)@.next_id == old(self)@.next_id,
            final(self)@.incomplete == old(self)@.incomplete,
    {
        let ghost old_names = self@.names;
        let ghost q = queue_of(old_names, name@);
        let mut changes: Vec<NameOwnerChange> = Vec::new();
        match self.find_name(name) {
            None => {
                let mut nq: Vec<QueueEntry> = Vec::new();
                nq.push(
                    QueueEntry {
                        unique_name: unique_name.to_owned(),
                        allow_replacement: request_flags & FLAG_ALLOW_REPLACEMENT != 0,
                        do_not_queue: request_flags & FLAG_DO_NOT_QUEUE != 0,
                    },
                );
                let ghost nqv = queue_view(nq@);
                assert(nqv =~= request_result(q, unique_name@, request_flags).1);
                proof {
                    lemma_request_ok(q, unique_name@, request_flags);
                    lemma_seq_map_push(self.name_seq(), name@, nqv);
                }
                let ghost before = self.name_seq();
                self.names.push((name.to_owned(), nq));
                assert(self.name_seq() =~= before.push((name@, nqv)));
                changes.push(
                    NameOwnerChange { name: name.to_owned(), old_owner: None, new_owner: Some(unique_name.to_owned()) },
                );
                assert(changes_view(changes@) =~= request_changes(q, name@, unique_name@, request_flags));
                (REQUEST_REPLY_PRIMARY_OWNER, changes)
            },
            Some(i) => {
                proof {
                    assert(queue_ok(self.name_seq()[i as int].1));
                    lemma_request_ok(q, unique_name@, request_flags);
                }
                let ghost old_owner = first_owner(old_names[name@]);
                let old_first = self.names[i].1[0].unique_name.clone();
                let (code, nq) = requested_queue(&self.names[i].1, unique_name, request_flags);
                match nq {
                    Some(nq) => {
                        let ghost nqv = queue_view(nq@);
                        proof {
                            lemma_seq_map_update(self.name_seq(), i as int, nqv);
                        }
                        let ghost before = self.name_seq();
                        self.names.set(i, (name.to_owned(), nq));
                        assert(self.name_seq() =~= before.update(i as int, (before[i as int].0, nqv)));
                        assert forall|j: int| 0 <= j < self.name_seq().len() implies queue_ok(
                            #[trigger] self.name_seq()[j].1,
                        ) by {
                            if j != i {
                                assert(self.name_seq()[j] == before[j]);
                            }
                        }
                    },
                    None => {
                        assert(old_names.insert(name@, old_names[name@]) =~= old_names);
                    },
                }
                if code == REQUEST_REPLY_PRIMARY_OWNER {
                    changes.push(
                        NameOwnerChange {
                            name: name.to_owned(),
                            old_owner: Some(old_first),
                            new_owner: Some(unique_name.to_owned()),
                        },
                    );
                }
                assert(changes_view(changes@) =~= request_changes(q, name@, unique_name@, request_flags));
                (code, changes)
            },
        }
    }
}

/// The change a release by `who` of the name `name` with queue `q`
/// announces: one where `who` owned it.
pub open spec fn release_changes(q: Seq<QueueEntrySpec>, name: Seq<char>, who: Seq<char>) -> Seq<ChangeSpec> {
    if q.len() > 0 && q[0].unique_name == who {
        seq![ChangeSpec { name, old_owner: Some(who), new_owner: first_owner(without(q, who)) }]
    } else {
        Seq::empty()
    }
}

/// The name table after `who` leaves the queue of `name`; a name whose
/// queue empties is dropped.
pub open spec fn after_release(m: Map<Seq<char>, Seq<QueueEntrySpec>>, name: Seq<char>, who: Seq<char>) -> Map<
    Seq<char>,
    Seq<QueueEntrySpec>,
> {
    let w = without(m[name], who);
    if w.len() == 0 {
        m.remove(name)
    } else {
        m.insert(name, w)
    }
}

/// When the owner of a name leaves its queue, the next in the queue owns
/// it.
pub proof fn release_promotes_next(q: Seq<QueueEntrySpec>, who: Seq<char>)
    requires
        queue_ok(q),
        q[0].unique_name == who,
        q.len() > 1,
    ensures
        first_owner(without(q, who)) == Some(q[1].unique_name),
{
    let t = q.skip(1);
    assert(t[0] == q[1]);
    assert(q[1].unique_name != who);
    assert(without(q, who) =~= Seq::<QueueEntrySpec>::empty() + without(t, who));
    assert(without(t, who) == seq![t[0]] + without(t.skip(1), who));
}

impl Registry {
    /// `ReleaseName`: `unique_name` gives up `name`, or its place in the
    /// name's queue. Gives the reply and the ownership changes to announce.
    pub fn release_name(&mut self, unique_name: &str, name: &str) -> (r: (u32, Vec<NameOwnerChange>))
        requires
            old(self).wf(),
        ensures
            final(self).wf(),
            final(self)@.connections == old(self)@.connections,
            final(self)@.next_id == old(self)@.next_id,
            final(self)@.incomplete == old(self)@.incomplete,
            !old(self)@.names.dom().contains(name@) ==> r.0 == RELEASE_REPLY_NON_EXISTENT && r.1@.len() == 0
                && final(self)@.names == old(self)@.names,
            old(self)@.names.dom().contains(name@) && !queue_has(old(self)@.names[name@], unique_name@) ==> r.0
                == RELEASE_REPLY_NOT_OWNER && r.1@.len() == 0 && final(self)@.names == old(self)@.names,
            old(self)@.names.dom().contains(name@) && queue_has(old(self)@.names[name@], unique_name@) ==> r.0
                == RELEASE_REPLY_RELEASED && changes_view(r.1@) == release_changes(
                old(self)@.names[name@],
                name@,
                unique_name@,
            ) && final(self)@.names == after_release(old(self)@.names, name@, unique_name@),
    {
        let mut changes: Vec<NameOwnerChange> = Vec::new();
        let i = match self.find_name(name) {
            Some(i) => i,
            None => {
                return (RELEASE_REPLY_NON_EXISTENT, changes);
            },
        };
        if !in_queue(&self.names[i].1, unique_name) {
            return (RELEASE_REPLY_NOT_OWNER, changes);
        }
        let ghost old_names = self@.names;
        let ghost q = self.name_seq()[i as int].1;
        proof {
            assert(queue_ok(q));
            assert(q.skip(0) =~= q);
            lemma_without(q, unique_name@);
        }
        let was_primary = crate::text::str_eq(self.names[i].1[0].unique_name.as_str(), unique_name);
        assert(was_primary == (q[0].unique_name == unique_name@));
        let w = queue_without(&self.names[i].1, 0, unique_name);
        let ghost wv = queue_view(w@);
        let new_owner = if w.len() > 0 {
            Some(w[0].unique_name.clone())
        } else {
            None
        };
        assert(opt_text(new_owner) == first_owner(wv));
        let ghost before = self.name_seq();
        if w.len() == 0 {
            proof {
                lemma_seq_map_remove(before, i as int);
            }
            self.names.remove(i);
            assert(self.name_seq() =~= before.remove(i as int));
            assert forall|j: int| 0 <= j < self.name_seq().len() implies queue_ok(#[trigger] self.name_seq()[j].1) by {
                if j < i {
                    assert(self.name_seq()[j] == before[j]);
                } else {
                    assert(self.name_seq()[j] == before[j + 1]);
                }
            }
        } else {
            proof {
                lemma_seq_map_update(before, i as int, wv);
            }
            self.names.set(i, (name.to_owned(), w));
            assert(self.name_seq() =~= before.update(i as int, (before[i as int].0, wv)));
            assert forall|j: int| 0 <= j < self.name_seq().len() implies queue_ok(#[trigger] self.name_seq()[j].1) by {
                if j != i {
                    assert(self.name_seq()[j] == before[j]);
                }
            }
        }
        if was_primary {
            changes.push(
                NameOwnerChange { name: name.to_owned(), old_owner: Some(unique_name.to_owned()), new_owner },
            );
        }
        assert(changes_view(changes@) =~= release_changes(q, name@, unique_name@));
        (RELEASE_REPLY_RELEASED, changes)
    }
}

/// The name table after `who` leaves every queue; names whose queues
/// empty are dropped.
pub open spec fn released_all(m: Map<Seq<char>, Seq<QueueEntrySpec>>, who: Seq<char>) -> Map<
    Seq<char>,
    Seq<QueueEntrySpec>,
> {
    Map::new(
        |n: Seq<char>| m.dom().contains(n) && without(m[n], who).len() > 0,
        |n: Seq<char>| without(m[n], who),
    )
}

/// Whether `evs` announce exactly the names `who` owned in `m`, each once,
/// each passing to the next in its queue.
pub open spec fn owner_changes_ok(m: Map<Seq<char>, Seq<QueueEntrySpec>>, who: Seq<char>, evs: Seq<ChangeSpec>) -> bool {
    &&& forall|k: int|
        0 <= k < evs.len() ==> {
            let n = (#[trigger] evs[k]).name;
            &&& m.dom().contains(n)
            &&& m[n].len() > 0
            &&& m[n][0].unique_name == who
            &&& evs[k].old_owner == Some(who)
            &&& evs[k].new_owner == first_owner(without(m[n], who))
        }
    &&& forall|n: Seq<char>|
        #[trigger] m.dom().contains(n) && m[n].len() > 0 && m[n][0].unique_name == who ==> exists|k: int|
            0 <= k < evs.len() && (#[trigger] evs[k]).name == n
    &&& forall|j: int, k: int| 0 <= j < k < evs.len() ==> (#[trigger] evs[j]).name != (#[trigger] evs[k]).name
}

/// A name table stepped through by `remove_connection`.
spec fn release_all_seq(s: Seq<(Seq<char>, Seq<QueueEntrySpec>)>, who: Seq<char>) -> Seq<
    (Seq<char>, Seq<QueueEntrySpec>),
>
    decreases s.len(),
{
    if s.len() == 0 {
        Seq::empty()
    } else {
        let w = without(s.last().1, who);
        release_all_seq(s.drop_last(), who) + if w.len() > 0 {
            seq![(s.last().0, w)]
        } else {
            Seq::empty()
        }
    }
}

/// The changes `remove_connection` announces, stepping through a table.
spec fn release_all_events(s: Seq<(Seq<char>, Seq<QueueEntrySpec>)>, who: Seq<char>) -> Seq<ChangeSpec>
    decreases s.len(),
{
    if s.len() == 0 {
        Seq::empty()
    } else {
        let q = s.last().1;
        release_all_events(s.drop_last(), who) + if q.len() > 0 && q[0].unique_name == who {
            seq![ChangeSpec { name: s.last().0, old_owner: Some(who), new_owner: first_owner(without(q, who)) }]
        } else {
            Seq::empty()
        }
    }
}

proof fn lemma_release_all(s: Seq<(Seq<char>, Seq<QueueEntrySpec>)>, who: Seq<char>)
    requires
        keys_unique(s),
    ensures
        keys_unique(release_all_seq(s, who)),
        seq_map(release_all_seq(s, who)) == released_all(seq_map(s), who),
        owner_changes_ok(seq_map(s), who, release_all_events(s, who)),
    decreases s.len(),
{
    let m = seq_map(s);
    if s.len() == 0 {
        assert(released_all(m, who) =~= Map::<Seq<char>, Seq<QueueEntrySpec>>::empty());
    } else {
        let init = s.drop_last();
        let (k, q) = s.last();
        lemma_keys_unique_init(s);
        lemma_release_all(init, who);
        let mi = seq_map(init);
        let ri = release_all_seq(init, who);
        let w = without(q, who);
        assert(m == mi.insert(k, q));
        assert(!seq_map(ri).dom().contains(k));
        if w.len() > 0 {
            lemma_seq_map_push(ri, k, w);
            assert(release_all_seq(s, who) =~= ri.push((k, w)));
            assert(released_all(m, who) =~= released_all(mi, who).insert(k, w));
        } else {
            assert(release_all_seq(s, who) =~= ri + Seq::<(Seq<char>, Seq<QueueEntrySpec>)>::empty());
            assert(released_all(m, who) =~= released_all(mi, who));
        }
        let ei = release_all_events(init, who);
        let evs = release_all_events(s, who);
        let owned = q.len() > 0 && q[0].unique_name == who;
        let tail = if owned {
            seq![ChangeSpec { name: k, old_owner: Some(who), new_owner: first_owner(without(q, who)) }]
        } else {
            Seq::<ChangeSpec>::empty()
        };
        assert(evs == ei + tail);
        assert forall|j: int| 0 <= j < ei.len() implies #[trigger] ei[j].name != k by {
            assert(mi.dom().contains(ei[j].name));
        }
        assert forall|j: int|
            0 <= j < evs.len() implies {
            let n = (#[trigger] evs[j]).name;
            &&& m.dom().contains(n)
            &&& m[n].len() > 0
            &&& m[n][0].unique_name == who
            &&& evs[j].old_owner == Some(who)
            &&& evs[j].new_owner == first_owner(without(m[n], who))
        } by {
            if j < ei.len() {
                assert(evs[j] == ei[j]);
                assert(ei[j].name != k);
            } else {
                assert(evs[j] == tail[j - ei.len()]);
            }
        }
        assert forall|n: Seq<char>|
            #[trigger] m.dom().contains(n) && m[n].len() > 0 && m[n][0].unique_name == who implies exists|j: int|
            0 <= j < evs.len() && (#[trigger] evs[j]).name == n by {
            if n == k {
                assert(evs[ei.len() as int].name == k);
            } else {
                assert(mi.dom().contains(n));
                let j = choose|j: int| 0 <= j < ei.len() && (#[trigger] ei[j]).name == n;
                assert(evs[j] == ei[j]);
            }
        }
        assert forall|a: int, b: int| 0 <= a < b < evs.len() implies (#[trigger] evs[a]).name != (
        #[trigger] evs[b]).name by {
            if b < ei.len() {
                assert(evs[a] == ei[a] && evs[b] == ei[b]);
            } else {
                assert(evs[a] == ei[a]);
                assert(evs[b].name == k);
            }
        }
    }
}

impl Registry {
    /// Drops the connection `unique_name`, which leaves the queue of every
    /// name. Gives the ownership changes to announce: one for each name it
    /// owned, then one for the unique name itself.
    pub fn remove_connection(&mut self, unique_name: &str) -> (r: Vec<NameOwnerChange>)
        requires
            old(self).wf(),
        ensures
            final(self).wf(),
            final(self)@.connections == old(self)@.connections.remove(unique_name@),
            final(self)@.names == released_all(old(self)@.names, unique_name@),
            forall|n: Seq<char>| #[trigger] final(self)@.names.dom().contains(n) ==> !queue_has(final(self)@.names[n], unique_name@),
            r@.len() >= 1,
            owner_changes_ok(old(self)@.names, unique_name@, changes_view(r@).drop_last()),
            changes_view(r@).last() == (ChangeSpec {
                name: unique_name@,
                old_owner: Some(unique_name@),
                new_owner: None,
            }),
            final(self)@.next_id == old(self)@.next_id,
            final(self)@.incomplete == old(self)@.incomplete,
    {
        let ghost old_map = self@.connections;
        match self.find_connection(unique_name) {
            Some(i) => {
                let ghost before = self.conn_seq();
                proof {
                    lemma_seq_map_remove(before, i as int);
                }
                self.connections.remove(i);
                assert(self.conn_seq() =~= before.remove(i as int));
            },
            None => {
                assert(old_map.remove(unique_name@) =~= old_map);
            },
        }
        let ghost s = self.name_seq();
        let mut kept: Vec<(String, Vec<QueueEntry>)> = Vec::new();
        let mut events: Vec<NameOwnerChange> = Vec::new();
        let mut i: usize = 0;
        proof {
            assert(s.take(0) =~= Seq::<(Seq<char>, Seq<QueueEntrySpec>)>::empty());
        }
        while i < self.names.len()
            invariant
                self.wf(),
                s == self.name_seq(),
                i <= self.names@.len(),
                Seq::new(kept@.len(), |j: int| (kept@[j].0@, queue_view(kept@[j].1@))) == release_all_seq(
                    s.take(i as int),
                    unique_name@,
                ),
                changes_view(events@) == release_all_events(s.take(i as int), unique_name@),
            decreases self.names.len() - i,
        {
            let ghost kept_before = kept@;
            let ghost events_before = events@;
            let ghost q = s[i as int].1;
            proof {
                assert(s.take(i + 1).drop_last() =~= s.take(i as int));
                assert(s.take(i + 1).last() == s[i as int]);
                assert(queue_ok(q));
                assert(q.skip(0) =~= q);
                lemma_without(q, unique_name@);
            }
            let qr = &self.names[i].1;
            let owned = crate::text::str_eq(qr[0].unique_name.as_str(), unique_name);
            let w = queue_without(qr, 0, unique_name);
            let ghost wv = queue_view(w@);
            if owned {
                let new_owner = if w.len() > 0 {
                    Some(w[0].unique_name.clone())
                } else {
                    None
                };
                events.push(
                    NameOwnerChange {
                        name: self.names[i].0.clone(),
                        old_owner: Some(unique_name.to_owned()),
                        new_owner,
                    },
                );
            }
            assert(changes_view(events@) =~= release_all_events(s.take(i + 1), unique_name@));
            if w.len() > 0 {
                kept.push((self.names[i].0.clone(), w));
            }
            assert(Seq::new(kept@.len(), |j: int| (kept@[j].0@, queue_view(kept@[j].1@))) =~= release_all_seq(
                s.take(i + 1),
                unique_name@,
            ));
            i = i + 1;
        }
        proof {
            assert(s.take(i as int) =~= s);
            lemma_release_all(s, unique_name@);
        }
        let ghost ks = release_all_seq(s, unique_name@);
        self.names = kept;
        assert(self.name_seq() =~= ks);
        assert forall|j: int| 0 <= j < self.name_seq().len() implies queue_ok(#[trigger] self.name_seq()[j].1) by {
            let n = self.name_seq()[j].0;
            lemma_seq_map_index(ks, j);
            lemma_seq_map_dom(s, n);
            let k = choose|k: int| 0 <= k < s.len() && (#[trigger] s[k]).0 == n;
            lemma_seq_map_index(s, k);
            assert(queue_ok(s[k].1));
            lemma_without(s[k].1, unique_name@);
        }
        assert forall|n: Seq<char>| #[trigger] self@.names.dom().contains(n) implies !queue_has(self@.names[n], unique_name@) by {
            lemma_without(seq_map(s)[n], unique_name@);
        }
        let ghost evs = changes_view(events@);
        events.push(
            NameOwnerChange {
                name: unique_name.to_owned(),
                old_owner: Some(unique_name.to_owned()),
                new_owner: None,
            },
        );
        assert(changes_view(events@).drop_last() =~= evs);
        events
    }
}

/// The keys of `m` whose values satisfy `p`.
pub open spec fn keys_where<V>(m: Map<Seq<char>, V>, p: spec_fn(V) -> bool) -> Set<Seq<char>> {
    m.dom().filter(|n: Seq<char>| p(m[n]))
}

/// Whether a queue holds `who`.
pub open spec fn holds(who: Seq<char>) -> spec_fn(Seq<QueueEntrySpec>) -> bool {
    |q: Seq<QueueEntrySpec>| queue_has(q, who)
}

/// Whether a user id is `uid`.
pub open spec fn is_uid(uid: u32) -> spec_fn(u32) -> bool {
    |u: u32| u == uid
}

spec fn count_where<V>(s: Seq<(Seq<char>, V)>, p: spec_fn(V) -> bool) -> nat
    decreases s.len(),
{
    if s.len() == 0 {
        0
    } else {
        count_where(s.drop_last(), p) + if p(s.last().1) {
            1nat
        } else {
            0nat
        }
    }
}

proof fn lemma_count_where<V>(s: Seq<(Seq<char>, V)>, p: spec_fn(V) -> bool)
    requires
        keys_unique(s),
    ensures
        keys_where(seq_map(s), p).finite(),
        keys_where(seq_map(s), p).len() == count_where(s, p),
    decreases s.len(),
{
    broadcast use vstd::set::group_set_axioms;

    if s.len() == 0 {
        assert(keys_where(seq_map(s), p) =~= Set::<Seq<char>>::empty());
    } else {
        let init = s.drop_last();
        let (k, v) = s.last();
        lemma_keys_unique_init(s);
        lemma_count_where(init, p);
        let mi = seq_map(init);
        let m = seq_map(s);
        assert(m == mi.insert(k, v));
        if p(v) {
            assert(keys_where(m, p) =~= keys_where(mi, p).insert(k));
        } else {
            assert(keys_where(m, p) =~= keys_where(mi, p));
        }
    }
}

impl Registry {
    /// How many names `unique_name` owns or waits for.
    pub fn names_held_by(&self, unique_name: &str) -> (n: usize)
        requires
            self.wf(),
        ensures
            n == keys_where(self@.names, holds(unique_name@)).len(),
    {
        let ghost s = self.name_seq();
        let mut count: usize = 0;
        let mut i: usize = 0;
        assert(s.take(0) =~= Seq::<(Seq<char>, Seq<QueueEntrySpec>)>::empty());
        while i < self.names.len()
            invariant
                s == self.name_seq(),
                i <= self.names@.len(),
                count <= i,
                count == count_where(s.take(i as int), holds(unique_name@)),
            decreases self.names.len() - i,
        {
            proof {
                assert(s.take(i + 1).drop_last() =~= s.take(i as int));
                assert(s.take(i + 1).last() == s[i as int]);
            }
            if in_queue(&self.names[i].1, unique_name) {
                count = count + 1;
            }
            i = i + 1;
        }
        proof {
            assert(s.take(i as int) =~= s);
            lemma_count_where(s, holds(unique_name@));
        }
        count
    }

    /// How many connections belong to the user `uid`.
    pub fn connection_count_for_uid(&self, uid: u32) -> (n: usize)
        requires
            self.wf(),
        ensures
            n == keys_where(self@.connections, is_uid(uid)).len(),
    {
        let ghost s = self.conn_seq();
        let mut count: usize = 0;
        let mut i: usize = 0;
        assert(s.take(0) =~= Seq::<(Seq<char>, u32)>::empty());
        while i < self.connections.len()
            invariant
                s == self.conn_seq(),
                i <= self.connections@.len(),
                count <= i,
                count == count_where(s.take(i as int), is_uid(uid)),
            decreases self.connections.len() - i,
        {
            proof {
                assert(s.take(i + 1).drop_last() =~= s.take(i as int));
                assert(s.take(i + 1).last() == s[i as int]);
            }
            if self.connections[i].1 == uid {
                count = count + 1;
            }
            i = i + 1;
        }
        proof {
            assert(s.take(i as int) =~= s);
            lemma_count_where(s, is_uid(uid));
        }
        count
    }

    /// Every unique name on the bus and every owned well-known name.
    pub fn list_names(&self) -> (v: Vec<String>)
        requires
            self.wf(),
        ensures
            v@.len() == self@.connections.dom().len() + self@.names.dom().len(),
            forall|x: Seq<char>|
                (exists|k: int| 0 <= k < v@.len() && (#[trigger] v@[k])@ == x) <==> (self@.connections.dom().contains(x)
                    || self@.names.dom().contains(x)),
    {
        let mut out: Vec<String> = Vec::new();
        let mut i: usize = 0;
        while i < self.connections.len()
            invariant
                i <= self.connections@.len(),
                out@.len() == i,
                forall|k: int| 0 <= k < i ==> (#[trigger] out@[k])@ == self.conn_seq()[k].0,
            decreases self.connections.len() - i,
        {
            out.push(self.connections[i].0.clone());
            i = i + 1;
        }
        let nc = self.connections.len();
        let mut j: usize = 0;
        while j < self.names.len()
            invariant
                j <= self.names@.len(),
                nc == self.connections@.len(),
                out@.len() == nc + j,
                forall|k: int| 0 <= k < nc ==> (#[trigger] out@[k])@ == self.conn_seq()[k].0,
                forall|k: int| 0 <= k < j ==> (#[trigger] out@[nc + k])@ == self.name_seq()[k].0,
            decreases self.names.len() - j,
        {
            out.push(self.names[j].0.clone());
            assert(out@[nc + j]@ == self.name_seq()[j as int].0);
            j = j + 1;
        }
        proof {
            lemma_seq_map_len(self.conn_seq());
            lemma_seq_map_len(self.name_seq());
            assert forall|x: Seq<char>|
                (exists|k: int| 0 <= k < out@.len() && (#[trigger] out@[k])@ == x) <==> (self@.connections.dom().contains(x)
                    || self@.names.dom().contains(x)) by {
                lemma_seq_map_dom(self.conn_seq(), x);
                lemma_seq_map_dom(self.name_seq(), x);
                if exists|k: int| 0 <= k < out@.len() && (#[trigger] out@[k])@ == x {
                    let k = choose|k: int| 0 <= k < out@.len() && (#[trigger] out@[k])@ == x;
                    if k < nc {
                        assert(self.conn_seq()[k].0 == x);
                    } else {
                        assert(out@[nc + (k - nc)]@ == self.name_seq()[k - nc].0);
                        assert(self.name_seq()[k - nc].0 == x);
                    }
                }
                if self@.connections.dom().contains(x) {
                    let k = choose|k: int| 0 <= k < self.conn_seq().len() && (#[trigger] self.conn_seq()[k]).0 == x;
                    assert(out@[k]@ == x);
                }
                if self@.names.dom().contains(x) {
                    let k = choose|k: int| 0 <= k < self.name_seq().len() && (#[trigger] self.name_seq()[k]).0 == x;
                    assert(out@[nc + k]@ == x);
                }
            }
        }
        out
    }

    /// The next unique name, `:1.` and a number one higher each time
    /// (wrapping around at the top of the `u64` range).
    pub fn allocate_unique_name(&mut self) -> (s: String)
        requires
            old(self).wf(),
        ensures
            final(self).wf(),
            s@ == seq![':', '1', '.'] + crate::text::decimal(old(self)@.next_id as nat),
            final(self)@.next_id == crate::daemon::stats::wrap_add(old(self)@.next_id, 1),
            final(self)@.connections == old(self)@.connections,
            final(self)@.names == old(self)@.names,
            final(self)@.incomplete == old(self)@.incomplete,
    {
        let id = self.next_id;
        self.next_id = self.next_id.wrapping_add(1);
        let digits = crate::text::u64_to_string(id);
        let mut s = String::new();
        crate::text::push_char(&mut s, ':');
        crate::text::push_char(&mut s, '1');
        crate::text::push_char(&mut s, '.');
        s.append(digits.as_str());
        assert(s@ =~= seq![':', '1', '.'] + crate::text::decimal(id as nat));
        s
    }

    /// Reserves a place for a connection still authenticating, unless
    /// `max` of them are there already.
    pub fn try_begin_incomplete(&mut self, max: u32) -> (b: bool)
        requires
            old(self).wf(),
        ensures
            final(self).wf(),
            b == (old(self)@.incomplete < max),
            b ==> final(self)@.incomplete == old(self)@.incomplete + 1,
            !b ==> final(self)@.incomplete == old(self)@.incomplete,
            final(self)@.connections == old(self)@.connections,
            final(self)@.names == old(self)@.names,
            final(self)@.next_id == old(self)@.next_id,
    {
        if self.incomplete >= max {
            return false;
        }
        self.incomplete = self.incomplete + 1;
        true
    }

    /// Gives back a place taken by `try_begin_incomplete` (wrapping below
    /// zero).
    pub fn end_incomplete(&mut self)
        requires
            old(self).wf(),
        ensures
            final(self).wf(),
            final(self)@.incomplete == if old(self)@.incomplete == 0 {
                u32::MAX
            } else {
                (old(self)@.incomplete - 1) as u32
            },
            final(self)@.connections == old(self)@.connections,
            final(self)@.names == old(self)@.names,
            final(self)@.next_id == old(self)@.next_id,
    {
        self.incomplete = self.incomplete.wrapping_sub(1);
    }
}

impl Default for Registry {
    /// An empty registry whose counter starts at zero.
    fn default() -> (r: Registry)
        ensures
            r.wf(),
            r@.connections == Map::<Seq<char>, u32>::empty(),
            r@.names == Map::<Seq<char>, Seq<QueueEntrySpec>>::empty(),
            r@.next_id == 0,
            r@.incomplete == 0,
    {
        let r = Registry { connections: Vec::new(), names: Vec::new(), next_id: 0, incomplete: 0 };
        assert(r.conn_seq() =~= Seq::<(Seq<char>, u32)>::empty());
        assert(r.name_seq() =~= Seq::<(Seq<char>, Seq<QueueEntrySpec>)>::empty());
        r
    }
}

/// A name nobody owned, requested and then released by the same
/// connection, is free again: the table is as it was.
pub proof fn request_then_release_frees(
    m: Map<Seq<char>, Seq<QueueEntrySpec>>,
    name: Seq<char>,
    who: Seq<char>,
    flags: u32,
)
    requires
        !m.dom().contains(name),
    ensures
        request_result(queue_of(m, name), who, flags).0 == REQUEST_REPLY_PRIMARY_OWNER,
        queue_has(m.insert(name, request_result(queue_of(m, name), who, flags).1)[name], who),
        after_release(m.insert(name, request_result(queue_of(m, name), who, flags).1), name, who) == m,
{
    let q = request_result(queue_of(m, name), who, flags).1;
    let m2 = m.insert(name, q);
    assert(m2[name] == q);
    assert(q[0].unique_name == who);
    lemma_without_one(q[0], who);
    assert(q =~= seq![q[0]]);
    assert(after_release(m2, name, who) =~= m);
}

/// Whether the sender of `msg` asked for no reply.
pub fn no_reply_expected(msg: &crate::message::Message) -> (b: bool)
    ensures
        b == (msg.header.flags & crate::header::flags::NO_REPLY_EXPECTED != 0),
{
    msg.no_reply_expected()
}

} // verus!
