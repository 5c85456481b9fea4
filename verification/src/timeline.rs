//! The locally held list of tweets: ordered by id, without duplicates.

use std::collections::VecDeque;
use vstd::prelude::*;

verus! {

/// What the client keeps of one tweet.
#[derive(Debug)]
pub struct Tweet {
    pub id: u64,
    pub user_name: String,
    pub screen_name: String,
    pub text: String,
}

impl Clone for Tweet {
    fn clone(&self) -> (copy: Self)
        ensures
            copy == *self,
    {
        Tweet {
            id: self.id,
            user_name: self.user_name.clone(),
            screen_name: self.screen_name.clone(),
            text: self.text.clone(),
        }
    }
}

/// The ids of `s`, in the order of `s`.
pub open spec fn ids(s: Seq<Tweet>) -> Seq<u64> {
    Seq::new(s.len(), |i: int| s[i].id)
}

/// Ids strictly ascend along `s`; so no id occurs twice.
pub open spec fn sorted_by_id(s: Seq<Tweet>) -> bool {
    forall|i: int, j: int| 0 <= i < j < s.len() ==> s[i].id < s[j].id
}

/// Some tweet of `s` has the id `id`.
pub open spec fn has_id(s: Seq<Tweet>, id: u64) -> bool {
    exists|i: int| 0 <= i < s.len() && s[i].id == id
}

/// The position in `s` of the tweet with the id `id`.
pub open spec fn item_index(s: Seq<Tweet>, id: u64) -> int {
    choose|i: int| 0 <= i < s.len() && s[i].id == id
}

/// The tweet that has the id `id` once `t` came in to `s`: `t` itself, or
/// the tweet that `s` held.
pub open spec fn kept_or(s: Seq<Tweet>, t: Tweet, id: u64) -> Tweet {
    if id == t.id {
        t
    } else {
        s[item_index(s, id)]
    }
}

/// The tweet among `s` that was added last with the id `id`, if there is one.
pub open spec fn latest(s: Seq<Tweet>, id: u64) -> Option<Tweet>
    decreases s.len(),
{
    if s.len() == 0 {
        None
    } else if s.last().id == id {
        Some(s.last())
    } else {
        latest(s.drop_last(), id)
    }
}

/// Where a tweet with the id `id` stands, or would be put, in an ordered `s`:
/// the length of the longest prefix that ends in a smaller id.
pub open spec fn rank(s: Seq<Tweet>, id: u64) -> int
    decreases s.len(),
{
    if s.len() == 0 {
        0
    } else if s.last().id < id {
        s.len() as int
    } else {
        rank(s.drop_last(), id)
    }
}

/// `s` after one tweet came in: a tweet of the same id is replaced where it
/// stands, a new id is put at its place in the order.
pub open spec fn merge_one(s: Seq<Tweet>, t: Tweet) -> Seq<Tweet> {
    let p = rank(s, t.id);
    if p < s.len() && s[p].id == t.id {
        s.update(p, t)
    } else {
        s.insert(p, t)
    }
}

/// `s` after the tweets of `page` came in, one after the other.
pub open spec fn merge_page(s: Seq<Tweet>, page: Seq<Tweet>) -> Seq<Tweet>
    decreases page.len(),
{
    if page.len() == 0 {
        s
    } else {
        merge_one(merge_page(s, page.drop_last()), page.last())
    }
}

/// In an ordered list, `rank` splits the smaller ids from the others.
pub proof fn lemma_rank(s: Seq<Tweet>, id: u64)
    requires
        sorted_by_id(s),
    ensures
        0 <= rank(s, id) <= s.len(),
        forall|i: int| 0 <= i < rank(s, id) ==> s[i].id < id,
        forall|i: int| rank(s, id) <= i < s.len() ==> s[i].id >= id,
    decreases s.len(),
{
    if s.len() > 0 {
        let n = s.len() - 1;
        if s.last().id < id {
            assert forall|i: int| 0 <= i < s.len() implies s[i].id < id by {
                if i < n {
                    assert(s[i].id < s[n].id);
                }
            }
        } else {
            let front = s.drop_last();
            lemma_rank(front, id);
            assert forall|i: int| 0 <= i < rank(s, id) implies s[i].id < id by {
                assert(front[i] == s[i]);
            }
            assert forall|i: int| rank(s, id) <= i < s.len() implies s[i].id >= id by {
                if i < n {
                    assert(front[i] == s[i]);
                }
            }
        }
    }
}

/// A position that splits the smaller ids from the others is the rank.
pub proof fn lemma_rank_is(s: Seq<Tweet>, id: u64, p: int)
    requires
        sorted_by_id(s),
        0 <= p <= s.len(),
        forall|i: int| 0 <= i < p ==> s[i].id < id,
        forall|i: int| p <= i < s.len() ==> s[i].id >= id,
    ensures
        rank(s, id) == p,
{
    lemma_rank(s, id);
    let r = rank(s, id);
    if r < p {
        assert(s[r].id < id);
    } else if p < r {
        assert(s[p].id >= id);
    }
}

/// One tweet coming in keeps the order, adds at most its own id, and changes
/// no other tweet.
pub proof fn lemma_merge_one(s: Seq<Tweet>, t: Tweet)
    requires
        sorted_by_id(s),
    ensures
        sorted_by_id(merge_one(s, t)),
        has_id(merge_one(s, t), t.id),
        forall|id: u64| has_id(merge_one(s, t), id) <==> (id == t.id || has_id(s, id)),
        forall|i: int|
            0 <= i < merge_one(s, t).len() ==> #[trigger] merge_one(s, t)[i] == kept_or(
                s,
                t,
                merge_one(s, t)[i].id,
            ),
        has_id(s, t.id) ==> ids(merge_one(s, t)) == ids(s),
        !has_id(s, t.id) ==> merge_one(s, t).len() == s.len() + 1,
{
    lemma_rank(s, t.id);
    let p = rank(s, t.id);
    let m = merge_one(s, t);
    if p < s.len() && s[p].id == t.id {
        assert(m[p].id == t.id);
        assert forall|id: u64| has_id(m, id) <==> (id == t.id || has_id(s, id)) by {
            if has_id(m, id) {
                let i = choose|i: int| 0 <= i < m.len() && m[i].id == id;
                assert(s[i].id == id);
            }
            if has_id(s, id) {
                let i = choose|i: int| 0 <= i < s.len() && s[i].id == id;
                assert(m[i].id == id);
            }
        }
        assert forall|i: int| 0 <= i < m.len() implies #[trigger] m[i] == kept_or(
            s,
            t,
            m[i].id,
        ) by {
            if m[i].id != t.id {
                assert(s[i].id == m[i].id);
                lemma_item_index(s, i);
            }
        }
        assert(ids(m) =~= ids(s));
    } else {
        assert(m[p].id == t.id);
        assert(!has_id(s, t.id)) by {
            if has_id(s, t.id) {
                let i = choose|i: int| 0 <= i < s.len() && s[i].id == t.id;
                assert(i >= p);
                assert(i > p ==> s[p].id < s[i].id);
            }
        }
        assert forall|i: int, j: int| 0 <= i < j < m.len() implies m[i].id < m[j].id by {
            if j < p {
            } else if j == p {
            } else if i < p {
                assert(s[i].id < t.id <= s[j - 1].id);
            } else if i == p {
                assert(s[j - 1].id >= t.id);
            } else {
                assert(s[i - 1].id < s[j - 1].id);
            }
        }
        assert forall|id: u64| has_id(m, id) <==> (id == t.id || has_id(s, id)) by {
            if has_id(m, id) && id != t.id {
                let i = choose|i: int| 0 <= i < m.len() && m[i].id == id;
                if i < p {
                    assert(s[i].id == id);
                } else {
                    assert(s[i - 1].id == id);
                }
            }
            if has_id(s, id) {
                let i = choose|i: int| 0 <= i < s.len() && s[i].id == id;
                if i < p {
                    assert(m[i].id == id);
                } else {
                    assert(m[i + 1].id == id);
                }
            }
        }
        assert forall|i: int| 0 <= i < m.len() implies #[trigger] m[i] == kept_or(
            s,
            t,
            m[i].id,
        ) by {
            if i < p {
                lemma_item_index(s, i);
            } else if i > p {
                lemma_item_index(s, i - 1);
            }
        }
    }
}


/// In an ordered list a tweet is found at its own position by its id.
pub proof fn lemma_item_index(s: Seq<Tweet>, i: int)
    requires
        sorted_by_id(s),
        0 <= i < s.len(),
    ensures
        item_index(s, s[i].id) == i,
{
    let j = item_index(s, s[i].id);
    assert(0 <= j < s.len() && s[j].id == s[i].id);
    if j < i {
        assert(s[j].id < s[i].id);
    } else if i < j {
        assert(s[i].id < s[j].id);
    }
}

/// Every id that occurs in `page` has a latest tweet there, of that id.
pub proof fn lemma_latest(page: Seq<Tweet>, id: u64)
    ensures
        latest(page, id) is Some <==> has_id(page, id),
        latest(page, id) is Some ==> latest(page, id).unwrap().id == id,
    decreases page.len(),
{
    if page.len() > 0 {
        let front = page.drop_last();
        lemma_latest(front, id);
        if page.last().id == id {
            assert(page[page.len() - 1].id == id);
        } else {
            if has_id(front, id) {
                let i = choose|i: int| 0 <= i < front.len() && front[i].id == id;
                assert(page[i].id == id);
            }
            if has_id(page, id) {
                let i = choose|i: int| 0 <= i < page.len() && page[i].id == id;
                assert(front[i].id == id);
            }
        }
    }
}

/// A page coming in keeps the order; afterwards the list holds, for each id
/// of the page, the tweet that the page gave last for it, and every other
/// tweet as it was.
pub proof fn lemma_merge_page(s: Seq<Tweet>, page: Seq<Tweet>)
    requires
        sorted_by_id(s),
    ensures
        sorted_by_id(merge_page(s, page)),
        forall|id: u64| has_id(merge_page(s, page), id) <==> (has_id(page, id) || has_id(s, id)),
        forall|i: int|
            0 <= i < merge_page(s, page).len() ==> #[trigger] merge_page(s, page)[i] == (
            match latest(page, merge_page(s, page)[i].id) {
                Some(t) => t,
                None => s[item_index(s, merge_page(s, page)[i].id)],
            }),
    decreases page.len(),
{
    let m = merge_page(s, page);
    if page.len() == 0 {
        assert forall|i: int| 0 <= i < m.len() implies #[trigger] m[i] == s[item_index(
            s,
            m[i].id,
        )] by {
            lemma_item_index(s, i);
        }
    } else {
        let front = page.drop_last();
        let t = page.last();
        let x = merge_page(s, front);
        lemma_merge_page(s, front);
        lemma_merge_one(x, t);
        assert forall|id: u64| has_id(m, id) <==> (has_id(page, id) || has_id(s, id)) by {
            lemma_latest(page, id);
            lemma_latest(front, id);
        }
        assert forall|i: int| 0 <= i < m.len() implies #[trigger] m[i] == (match latest(
            page,
            m[i].id,
        ) {
            Some(t) => t,
            None => s[item_index(s, m[i].id)],
        }) by {
            let id = m[i].id;
            if id != t.id {
                assert(has_id(m, id));
                assert(has_id(x, id));
                let j = item_index(x, id);
                assert(x[j].id == id);
                assert(m[i] == x[j]);
            }
        }
    }
}

/// A page whose ids the list all holds changes no position: each of its
/// tweets replaces the one of its id.
pub proof fn lemma_merge_known_ids(s: Seq<Tweet>, page: Seq<Tweet>)
    requires
        sorted_by_id(s),
        forall|k: int| 0 <= k < page.len() ==> has_id(s, #[trigger] page[k].id),
    ensures
        ids(merge_page(s, page)) == ids(s),
    decreases page.len(),
{
    if page.len() > 0 {
        let front = page.drop_last();
        let t = page.last();
        let x = merge_page(s, front);
        assert forall|k: int| 0 <= k < front.len() implies has_id(s, #[trigger] front[k].id) by {
            assert(front[k] == page[k]);
        }
        lemma_merge_known_ids(s, front);
        lemma_merge_page(s, front);
        assert(has_id(s, page[page.len() - 1].id));
        let j = choose|j: int| 0 <= j < s.len() && s[j].id == t.id;
        assert(ids(x).len() == x.len() && ids(s).len() == s.len());
        assert(ids(x)[j] == x[j].id && ids(s)[j] == s[j].id);
        assert(has_id(x, t.id));
        lemma_merge_one(x, t);
    }
}

/// Merging is idempotent: a page that comes in a second time, right after the
/// first, leaves the list as it is.
pub proof fn lemma_merge_page_idempotent(s: Seq<Tweet>, page: Seq<Tweet>)
    requires
        sorted_by_id(s),
    ensures
        merge_page(merge_page(s, page), page) == merge_page(s, page),
{
    let m = merge_page(s, page);
    let again = merge_page(m, page);
    lemma_merge_page(s, page);
    lemma_merge_page(m, page);
    assert forall|k: int| 0 <= k < page.len() implies has_id(m, #[trigger] page[k].id) by {
        assert(has_id(page, page[k].id));
    }
    lemma_merge_known_ids(m, page);
    assert(again.len() == ids(again).len());
    assert(m.len() == ids(m).len());
    assert forall|i: int| 0 <= i < m.len() implies again[i] == m[i] by {
        assert(ids(again)[i] == ids(m)[i]);
        assert(again[i].id == m[i].id);
        lemma_item_index(m, i);
    }
    assert(again =~= m);
}

/// Two ordered lists that hold the same ids hold them at the same places.
pub proof fn lemma_same_ids(a: Seq<Tweet>, b: Seq<Tweet>)
    requires
        sorted_by_id(a),
        sorted_by_id(b),
        forall|id: u64| has_id(a, id) <==> has_id(b, id),
    ensures
        ids(a) == ids(b),
    decreases a.len(),
{
    if a.len() == 0 {
        if b.len() > 0 {
            assert(has_id(b, b[0].id));
        }
        assert(ids(a) =~= ids(b));
    } else {
        let n = a.len() - 1;
        assert(has_id(a, a[n].id));
        let j = choose|j: int| 0 <= j < b.len() && b[j].id == a[n].id;
        let m = b.len() - 1;
        assert(has_id(b, b[m].id));
        let i = choose|i: int| 0 <= i < a.len() && a[i].id == b[m].id;
        assert(j < m ==> b[j].id < b[m].id);
        assert(i < n ==> a[i].id < a[n].id);
        assert(a[n].id == b[m].id);
        let front_a = a.drop_last();
        let front_b = b.drop_last();
        assert forall|id: u64| has_id(front_a, id) <==> has_id(front_b, id) by {
            if has_id(front_a, id) {
                let x = choose|x: int| 0 <= x < front_a.len() && front_a[x].id == id;
                assert(a[x].id < a[n].id);
                assert(has_id(a, id));
                let y = choose|y: int| 0 <= y < b.len() && b[y].id == id;
                assert(front_b[y].id == id);
            }
            if has_id(front_b, id) {
                let y = choose|y: int| 0 <= y < front_b.len() && front_b[y].id == id;
                assert(b[y].id < b[m].id);
                assert(has_id(b, id));
                let x = choose|x: int| 0 <= x < a.len() && a[x].id == id;
                assert(front_a[x].id == id);
            }
        }
        lemma_same_ids(front_a, front_b);
        assert(ids(front_a).len() == front_a.len() && ids(front_b).len() == front_b.len());
        assert forall|x: int| 0 <= x < a.len() implies ids(a)[x] == ids(b)[x] by {
            if x < n {
                assert(ids(front_a)[x] == ids(front_b)[x]);
            }
        }
        assert(ids(a) =~= ids(b));
    }
}

/// Pages that share no id may come in either order: the list is the same.
pub proof fn lemma_merge_pages_commute(s: Seq<Tweet>, first: Seq<Tweet>, second: Seq<Tweet>)
    requires
        sorted_by_id(s),
        forall|id: u64| !(has_id(first, id) && has_id(second, id)),
    ensures
        merge_page(merge_page(s, first), second) == merge_page(merge_page(s, second), first),
{
    let x = merge_page(s, first);
    let y = merge_page(s, second);
    let a = merge_page(x, second);
    let b = merge_page(y, first);
    lemma_merge_page(s, first);
    lemma_merge_page(s, second);
    lemma_merge_page(x, second);
    lemma_merge_page(y, first);
    assert forall|id: u64| has_id(a, id) <==> has_id(b, id) by {
        assert(has_id(a, id) <==> (has_id(second, id) || has_id(x, id)));
        assert(has_id(x, id) <==> (has_id(first, id) || has_id(s, id)));
        assert(has_id(b, id) <==> (has_id(first, id) || has_id(y, id)));
        assert(has_id(y, id) <==> (has_id(second, id) || has_id(s, id)));
    }
    lemma_same_ids(a, b);
    assert(ids(a).len() == a.len() && ids(b).len() == b.len());
    assert forall|i: int| 0 <= i < a.len() implies a[i] == b[i] by {
        assert(ids(a)[i] == ids(b)[i]);
        let id = a[i].id;
        assert(b[i].id == id);
        lemma_latest(first, id);
        lemma_latest(second, id);
        assert(has_id(a, id));
        if has_id(second, id) {
            assert(has_id(y, id));
            let j = item_index(y, id);
            assert(y[j].id == id);
        } else if has_id(first, id) {
            assert(has_id(x, id));
            let j = item_index(x, id);
            assert(x[j].id == id);
        } else {
            assert(has_id(s, id));
            assert(has_id(x, id));
            assert(has_id(y, id));
            let j = item_index(x, id);
            let k = item_index(y, id);
            assert(x[j].id == id);
            assert(y[k].id == id);
        }
    }
    assert(a =~= b);
}

/// `s` after the pages of `pages` came in, one after the other.
pub open spec fn merge_pages(s: Seq<Tweet>, pages: Seq<Seq<Tweet>>) -> Seq<Tweet>
    decreases pages.len(),
{
    if pages.len() == 0 {
        s
    } else {
        merge_page(merge_pages(s, pages.drop_last()), pages.last())
    }
}

/// Whatever pages come in, in whatever order, the list stays in ascending
/// order of id and holds no id twice.
pub proof fn lemma_merge_pages_sorted(s: Seq<Tweet>, pages: Seq<Seq<Tweet>>)
    requires
        sorted_by_id(s),
    ensures
        sorted_by_id(merge_pages(s, pages)),
        ids(merge_pages(s, pages)).no_duplicates(),
    decreases pages.len(),
{
    if pages.len() > 0 {
        lemma_merge_pages_sorted(s, pages.drop_last());
        lemma_merge_page(merge_pages(s, pages.drop_last()), pages.last());
    }
    lemma_sorted_no_duplicates(merge_pages(s, pages));
}

/// An ordered list holds no id twice.
pub proof fn lemma_sorted_no_duplicates(s: Seq<Tweet>)
    requires
        sorted_by_id(s),
    ensures
        ids(s).no_duplicates(),
{
    let all = ids(s);
    assert forall|i: int, j: int| 0 <= i < all.len() && 0 <= j < all.len() && i != j implies all[i]
        != all[j] by {
        if i < j {
            assert(s[i].id < s[j].id);
        } else {
            assert(s[j].id < s[i].id);
        }
    }
}

/// The tweets that the client holds, oldest first.
#[derive(Debug)]
pub struct Timeline {
    tweets: VecDeque<Tweet>,
}

impl View for Timeline {
    type V = Seq<Tweet>;

    closed spec fn view(&self) -> Seq<Tweet> {
        self.tweets@
    }
}

impl Timeline {
    /// The list is in ascending order of id, always.
    #[verifier::type_invariant]
    spec fn ordered(self) -> bool {
        sorted_by_id(self.tweets@)
    }

    pub fn new() -> (timeline: Self)
        ensures
            timeline@ == Seq::<Tweet>::empty(),
    {
        Timeline { tweets: VecDeque::new() }
    }

    /// The tweets, oldest first: in ascending order of id, and so without
    /// an id that occurs twice.
    pub fn tweets(&self) -> (all: &VecDeque<Tweet>)
        ensures
            all@ == self@,
            sorted_by_id(self@),
    {
        proof {
            use_type_invariant(self);
        }
        &self.tweets
    }

    pub fn len(&self) -> (n: usize)
        ensures
            n == self@.len(),
    {
        self.tweets.len()
    }

    /// A copy of the tweets, oldest first.
    pub fn to_vec(&self) -> (all: Vec<Tweet>)
        ensures
            all@ == self@,
    {
        let mut all: Vec<Tweet> = Vec::new();
        let mut i: usize = 0;
        while i < self.tweets.len()
            invariant
                i <= self.tweets.len(),
                all@ == self.tweets@.take(i as int),
            decreases self.tweets.len() - i,
        {
            all.push(self.tweets[i].clone());
            proof {
                assert(self.tweets@.take(i + 1) =~= self.tweets@.take(i as int).push(
                    self.tweets@[i as int],
                ));
            }
            i += 1;
        }
        proof {
            assert(self.tweets@.take(self.tweets.len() as int) =~= self.tweets@);
        }
        all
    }

    /// The id of the oldest tweet held.
    pub fn oldest_id(&self) -> (id: Option<u64>)
        ensures
            self@.len() == 0 <==> id is None,
            id matches Some(first) ==> first == self@[0].id && forall|i: int|
                0 <= i < self@.len() ==> first <= self@[i].id,
    {
        proof {
            use_type_invariant(self);
        }
        if self.tweets.len() == 0 {
            None
        } else {
            Some(self.tweets[0].id)
        }
    }

    /// The id of the newest tweet held.
    pub fn newest_id(&self) -> (id: Option<u64>)
        ensures
            self@.len() == 0 <==> id is None,
            id matches Some(last) ==> last == self@.last().id && forall|i: int|
                0 <= i < self@.len() ==> self@[i].id <= last,
    {
        proof {
            use_type_invariant(self);
        }
        let n = self.tweets.len();
        if n == 0 {
            None
        } else {
            Some(self.tweets[n - 1].id)
        }
    }

    /// Where a tweet of the id `id` stands or belongs: the number of tweets
    /// with a smaller id.
    pub fn search(&self, id: u64) -> (p: usize)
        ensures
            p == rank(self@, id),
            p <= self@.len(),
    {
        proof {
            use_type_invariant(self);
        }
        let mut lo: usize = 0;
        let mut hi: usize = self.tweets.len();
        while lo < hi
            invariant
                lo <= hi <= self.tweets.len(),
                sorted_by_id(self.tweets@),
                forall|i: int| 0 <= i < lo ==> self.tweets@[i].id < id,
                forall|i: int| hi <= i < self.tweets.len() ==> self.tweets@[i].id >= id,
            decreases hi - lo,
        {
            let mid = lo + (hi - lo) / 2;
            if self.tweets[mid].id < id {
                proof {
                    assert forall|i: int| 0 <= i < mid + 1 implies self.tweets@[i].id < id by {
                        if i < mid {
                            assert(self.tweets@[i].id < self.tweets@[mid as int].id);
                        }
                    }
                }
                lo = mid + 1;
            } else {
                proof {
                    assert forall|i: int| mid <= i < self.tweets.len() implies self.tweets@[i].id
                        >= id by {
                        if mid < i {
                            assert(self.tweets@[mid as int].id < self.tweets@[i].id);
                        }
                    }
                }
                hi = mid;
            }
        }
        proof {
            lemma_rank_is(self@, id, lo as int);
        }
        lo
    }

    /// The position of the tweet with the id `id`, if the list holds one.
    pub fn find(&self, id: u64) -> (at: Option<usize>)
        ensures
            at is Some <==> has_id(self@, id),
            at matches Some(i) ==> i < self@.len() && self@[i as int].id == id,
    {
        let p = self.search(id);
        proof {
            use_type_invariant(self);
            lemma_rank(self@, id);
        }
        if p < self.tweets.len() && self.tweets[p].id == id {
            Some(p)
        } else {
            proof {
                if has_id(self@, id) {
                    let i = choose|i: int| 0 <= i < self@.len() && self@[i].id == id;
                    assert(i >= p);
                    assert(i > p ==> self@[p as int].id < self@[i].id);
                }
            }
            None
        }
    }

    /// Takes one tweet in: it replaces the tweet of its id, or goes to its
    /// place in the order.
    pub fn insert(&mut self, tweet: Tweet)
        ensures
            final(self)@ == merge_one(old(self)@, tweet),
            sorted_by_id(final(self)@),
    {
        proof {
            use_type_invariant(&*self);
            lemma_merge_one(self@, tweet);
        }
        let p = self.search(tweet.id);
        let mut tweets: VecDeque<Tweet> = VecDeque::new();
        std::mem::swap(&mut tweets, &mut self.tweets);
        if p < tweets.len() && tweets[p].id == tweet.id {
            let ghost before = tweets@;
            let _ = tweets.remove(p);
            tweets.insert(p, tweet);
            proof {
                assert(tweets@ =~= before.update(p as int, tweet));
            }
        } else {
            tweets.insert(p, tweet);
        }
        self.tweets = tweets;
    }

    /// Takes a page of tweets in, one after the other.
    pub fn merge(&mut self, page: &Vec<Tweet>)
        ensures
            final(self)@ == merge_page(old(self)@, page@),
            sorted_by_id(final(self)@),
    {
        let mut i: usize = 0;
        while i < page.len()
            invariant
                i <= page.len(),
                self@ == merge_page(old(self)@, page@.take(i as int)),
            decreases page.len() - i,
        {
            proof {
                assert(page@.take(i + 1).drop_last() =~= page@.take(i as int));
                assert(page@.take(i + 1).last() == page@[i as int]);
            }
            self.insert(page[i].clone());
            i += 1;
        }
        proof {
            use_type_invariant(&*self);
            assert(page@.take(page.len() as int) =~= page@);
        }
    }
}

} // verus!
