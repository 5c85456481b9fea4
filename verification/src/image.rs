//! The table of images that the client loads over the network.
//!
//! Each key has at most one entry, made when the key is first asked for.  An
//! entry counts who holds it: the table itself, the loader, and whoever asked
//! for it and has not let go yet.  A sweep takes out the entries that nobody
//! but the table holds and that were not looked at for a while.

use vstd::prelude::*;
use vstd::string::*;

verus! {

/// An entry that was not looked at for longer than this may be swept.
pub const STALE_AFTER_MS: u64 = 60_000;

/// What an image is fetched by.
#[derive(Debug)]
pub enum Key {
    Https(String),
}

impl View for Key {
    type V = Seq<char>;

    open spec fn view(&self) -> Seq<char> {
        match self {
            Key::Https(url) => url@,
        }
    }
}

impl Clone for Key {
    fn clone(&self) -> (copy: Self)
        ensures
            copy == *self,
    {
        match self {
            Key::Https(url) => Key::Https(url.clone()),
        }
    }
}

impl Key {
    /// Whether both keys fetch the same image.
    pub fn same(&self, other: &Key) -> (same: bool)
        ensures
            same == (self@ == other@),
    {
        match (self, other) {
            (Key::Https(a), Key::Https(b)) => *a == *b,
        }
    }
}

/// A texture of the UI, as the UI names it.
#[derive(Clone, Copy, Debug, PartialEq, Eq, Structural)]
pub enum TextureId {
    Egui,
    User(u64),
}

/// How far the loading of an image has come.
#[derive(Debug)]
pub enum LoadingStatus {
    Loading,
    Loaded(TextureId),
    Error(String),
}

/// A `LoadingStatus` with its message as a sequence of characters.
pub enum StatusView {
    Loading,
    Loaded(TextureId),
    Error(Seq<char>),
}

impl View for LoadingStatus {
    type V = StatusView;

    open spec fn view(&self) -> StatusView {
        match self {
            LoadingStatus::Loading => StatusView::Loading,
            LoadingStatus::Loaded(id) => StatusView::Loaded(*id),
            LoadingStatus::Error(message) => StatusView::Error(message@),
        }
    }
}

impl LoadingStatus {
    pub fn is_loading(&self) -> (loading: bool)
        ensures
            loading == (self@ is Loading),
    {
        match self {
            LoadingStatus::Loading => true,
            _ => false,
        }
    }

    pub fn as_error(&self) -> (message: Option<String>)
        ensures
            match self@ {
                StatusView::Error(text) => message is Some && message.unwrap()@ == text,
                _ => message is None,
            },
    {
        match self {
            LoadingStatus::Error(message) => Some(message.clone()),
            _ => None,
        }
    }

    pub fn as_texture(&self) -> (texture: Option<TextureId>)
        ensures
            match self@ {
                StatusView::Loaded(id) => texture == Some(id),
                _ => texture is None,
            },
    {
        match self {
            LoadingStatus::Loaded(id) => Some(*id),
            _ => None,
        }
    }
}

/// One entry of the table, as contracts see it.
pub struct EntryView {
    pub key: Seq<char>,
    pub status: StatusView,
    /// When the entry was last looked at or written, in milliseconds.
    pub last_access: u64,
    /// How many hold the entry, the table included.
    pub holders: u64,
}

#[derive(Debug)]
struct Entry {
    key: Key,
    status: LoadingStatus,
    last_access: u64,
    holders: u64,
}

impl View for Entry {
    type V = EntryView;

    closed spec fn view(&self) -> EntryView {
        EntryView {
            key: self.key@,
            status: self.status@,
            last_access: self.last_access,
            holders: self.holders,
        }
    }
}

/// No key has two entries.
pub open spec fn keys_distinct(s: Seq<EntryView>) -> bool {
    forall|i: int, j: int| 0 <= i < j < s.len() ==> s[i].key != s[j].key
}

/// The table holds each of its entries.
pub open spec fn held_by_table(s: Seq<EntryView>) -> bool {
    forall|i: int| 0 <= i < s.len() ==> (#[trigger] s[i]).holders >= 1
}

/// `key` has an entry in `s`.
pub open spec fn has_key(s: Seq<EntryView>, key: Seq<char>) -> bool {
    exists|i: int| 0 <= i < s.len() && (#[trigger] s[i]).key == key
}

/// Where the entry of `key` stands in `s`.
pub open spec fn position(s: Seq<EntryView>, key: Seq<char>) -> int {
    choose|i: int| 0 <= i < s.len() && (#[trigger] s[i]).key == key
}

/// The status that the entry of `key` has, if there is one.
pub open spec fn status_of(s: Seq<EntryView>, key: Seq<char>) -> Option<StatusView> {
    if has_key(s, key) {
        Some(s[position(s, key)].status)
    } else {
        None
    }
}

/// The texture that a look at the entry of `key` gives: that of a loaded
/// entry, and none else.
pub open spec fn texture_read(s: Seq<EntryView>, key: Seq<char>) -> Option<TextureId> {
    match status_of(s, key) {
        Some(StatusView::Loaded(id)) => Some(id),
        _ => None,
    }
}

/// The message that a look at the entry of `key` gives: that of a failed
/// entry, and none else.
pub open spec fn error_read(s: Seq<EntryView>, key: Seq<char>) -> Option<Seq<char>> {
    match status_of(s, key) {
        Some(StatusView::Error(text)) => Some(text),
        _ => None,
    }
}

/// One holder more.
pub open spec fn one_more(holders: u64) -> u64 {
    if holders < u64::MAX {
        (holders + 1) as u64
    } else {
        holders
    }
}

/// The table after the entry of `key` got one holder more.
pub open spec fn shared(s: Seq<EntryView>, key: Seq<char>) -> Seq<EntryView> {
    if has_key(s, key) {
        let i = position(s, key);
        s.update(i, EntryView { holders: one_more(s[i].holders), ..s[i] })
    } else {
        s
    }
}

/// The table after `key` was asked for at the time `now`: an entry that is
/// there gets one holder more; else a loading entry is made, held by the
/// table, by the loader and by the one who asked.
pub open spec fn requested(s: Seq<EntryView>, key: Seq<char>, now: u64) -> Seq<EntryView> {
    if has_key(s, key) {
        shared(s, key)
    } else {
        s.push(EntryView { key, status: StatusView::Loading, last_access: now, holders: 3 })
    }
}

/// The table after the entry of `key` was looked at at the time `now`.
pub open spec fn touched(s: Seq<EntryView>, key: Seq<char>, now: u64) -> Seq<EntryView> {
    if has_key(s, key) {
        let i = position(s, key);
        s.update(i, EntryView { last_access: now, ..s[i] })
    } else {
        s
    }
}

/// The table after the loader reported `outcome` for `key` at the time `now`:
/// an entry that is still loading takes the outcome, one that has its outcome
/// already keeps it.
pub open spec fn settled(s: Seq<EntryView>, key: Seq<char>, outcome: StatusView, now: u64) -> Seq<
    EntryView,
> {
    if has_key(s, key) {
        let i = position(s, key);
        let status = if s[i].status is Loading {
            outcome
        } else {
            s[i].status
        };
        s.update(i, EntryView { status, last_access: now, ..s[i] })
    } else {
        s
    }
}

/// The table after one holder of `key` let go.  The table's own hold stays.
pub open spec fn released(s: Seq<EntryView>, key: Seq<char>) -> Seq<EntryView> {
    if has_key(s, key) && s[position(s, key)].holders > 1 {
        let i = position(s, key);
        s.update(i, EntryView { holders: (s[i].holders - 1) as u64, ..s[i] })
    } else {
        s
    }
}

/// The entry was not looked at for longer than the staleness window.
pub open spec fn stale(e: EntryView, now: u64) -> bool {
    now - e.last_access > STALE_AFTER_MS
}

/// A sweep at the time `now` takes the entry out: it is stale and only the
/// table holds it.
pub open spec fn reclaimable(e: EntryView, now: u64) -> bool {
    stale(e, now) && e.holders == 1
}

/// The table after a sweep at the time `now`.
pub open spec fn swept(s: Seq<EntryView>, now: u64) -> Seq<EntryView> {
    s.filter(|e: EntryView| !reclaimable(e, now))
}

/// The textures of the loaded entries that a sweep at the time `now` takes
/// out, in the order of the table.
pub open spec fn freed(s: Seq<EntryView>, now: u64) -> Seq<TextureId>
    decreases s.len(),
{
    if s.len() == 0 {
        Seq::empty()
    } else if reclaimable(s.last(), now) && s.last().status is Loaded {
        freed(s.drop_last(), now).push(s.last().status->Loaded_0)
    } else {
        freed(s.drop_last(), now)
    }
}

/// In a table without double keys an entry is found by its key.
pub proof fn lemma_position(s: Seq<EntryView>, i: int)
    requires
        keys_distinct(s),
        0 <= i < s.len(),
    ensures
        has_key(s, s[i].key),
        position(s, s[i].key) == i,
{
    let j = position(s, s[i].key);
    assert(0 <= j < s.len() && s[j].key == s[i].key);
    if j < i {
        assert(s[j].key != s[i].key);
    } else if i < j {
        assert(s[i].key != s[j].key);
    }
}

/// The table of images, in the order in which their keys were first asked
/// for.
#[derive(Debug)]
pub struct ImageCache {
    entries: Vec<Entry>,
}

spec fn views(entries: Seq<Entry>) -> Seq<EntryView> {
    Seq::new(entries.len(), |i: int| entries[i]@)
}

impl View for ImageCache {
    type V = Seq<EntryView>;

    closed spec fn view(&self) -> Seq<EntryView> {
        views(self.entries@)
    }
}

/// A hold on the entry of one key.  Whoever has one gives it back with
/// `release` and makes a second one only with `ImageCache::share`, so that
/// the table's count of holders stays true.
#[derive(Debug)]
pub struct LoadContext {
    key: Key,
}

impl LoadContext {
    /// The key whose entry this holds.
    pub closed spec fn key(&self) -> Seq<char> {
        self.key@
    }

    /// The key whose entry this holds.
    pub fn get_key(&self) -> (key: &Key)
        ensures
            key@ == self.key(),
    {
        &self.key
    }

    /// The texture of the image, once it is loaded.  Looking counts as an
    /// access.
    pub fn get_texture_id(&self, cache: &mut ImageCache, now: u64) -> (texture: Option<TextureId>)
        ensures
            final(cache)@ == touched(old(cache)@, self.key(), now),
            texture == texture_read(old(cache)@, self.key()),
    {
        match cache.index_of(&self.key) {
            Some(i) => {
                cache.touch(i, now);
                cache.entries[i].status.as_texture()
            },
            None => None,
        }
    }

    /// The message of the failure, if loading failed.  Looking counts as an
    /// access.
    pub fn get_error(&self, cache: &mut ImageCache, now: u64) -> (message: Option<String>)
        ensures
            final(cache)@ == touched(old(cache)@, self.key(), now),
            match error_read(old(cache)@, self.key()) {
                Some(text) => message is Some && message.unwrap()@ == text,
                None => message is None,
            },
    {
        match cache.index_of(&self.key) {
            Some(i) => {
                cache.touch(i, now);
                cache.entries[i].status.as_error()
            },
            None => None,
        }
    }

    /// Records that loading failed.  An entry that has its outcome keeps it.
    pub fn set_error(&self, cache: &mut ImageCache, message: String, now: u64)
        ensures
            final(cache)@ == settled(
                old(cache)@,
                self.key(),
                StatusView::Error(message@),
                now,
            ),
    {
        cache.settle(&self.key, LoadingStatus::Error(message), now);
    }

    /// Records the texture that the image was loaded into.  An entry that has
    /// its outcome keeps it.
    pub fn set_texture_id(&self, cache: &mut ImageCache, id: TextureId, now: u64)
        ensures
            final(cache)@ == settled(old(cache)@, self.key(), StatusView::Loaded(id), now),
    {
        cache.settle(&self.key, LoadingStatus::Loaded(id), now);
    }

    /// Gives the hold back.
    pub fn release(self, cache: &mut ImageCache)
        ensures
            final(cache)@ == released(old(cache)@, self.key()),
    {
        match cache.index_of(&self.key) {
            Some(i) => {
                let holders = cache.entries[i].holders;
                if holders > 1 {
                    cache.set_holders(i, holders - 1);
                }
            },
            None => {},
        }
    }
}

impl ImageCache {
    /// No key has two entries, and the table holds each of them, always.
    #[verifier::type_invariant]
    spec fn consistent(self) -> bool {
        keys_distinct(views(self.entries@)) && held_by_table(views(self.entries@))
    }

    pub fn new() -> (cache: Self)
        ensures
            cache@ == Seq::<EntryView>::empty(),
    {
        let cache = ImageCache { entries: Vec::new() };
        proof {
            assert(cache@ =~= Seq::<EntryView>::empty());
        }
        cache
    }

    /// The number of entries.  No key has two of them, and the table holds
    /// each of them.
    pub fn len(&self) -> (n: usize)
        ensures
            n == self@.len(),
            keys_distinct(self@),
            held_by_table(self@),
    {
        proof {
            use_type_invariant(self);
        }
        self.entries.len()
    }

    /// How many hold the entry of `key`, the table included.
    pub fn holders(&self, key: &Key) -> (holders: Option<u64>)
        ensures
            holders is Some <==> has_key(self@, key@),
            holders matches Some(n) ==> n == self@[position(self@, key@)].holders,
    {
        match self.index_of(key) {
            Some(i) => Some(self.entries[i].holders),
            None => None,
        }
    }

    /// A second hold on the entry that `context` holds.
    pub fn share(&mut self, context: &LoadContext) -> (second: LoadContext)
        ensures
            second.key() == context.key(),
            final(self)@ == shared(old(self)@, context.key()),
    {
        match self.index_of(&context.key) {
            Some(i) => {
                let holders = self.entries[i].holders;
                if holders < u64::MAX {
                    self.set_holders(i, holders + 1);
                }
            },
            None => {},
        }
        LoadContext { key: context.key.clone() }
    }

    fn index_of(&self, key: &Key) -> (at: Option<usize>)
        ensures
            at is Some <==> has_key(self@, key@),
            at matches Some(i) ==> i < self.entries@.len() && i == position(self@, key@)
                && self.entries@[i as int].key@ == key@,
    {
        proof {
            use_type_invariant(self);
        }
        let mut i: usize = 0;
        while i < self.entries.len()
            invariant
                keys_distinct(self@),
                i <= self.entries.len(),
                self@.len() == self.entries@.len(),
                forall|j: int| 0 <= j < i ==> (#[trigger] self@[j]).key != key@,
            decreases self.entries.len() - i,
        {
            if self.entries[i].key.same(key) {
                proof {
                    assert(self@[i as int].key == key@);
                    lemma_position(self@, i as int);
                }
                return Some(i);
            }
            i += 1;
        }
        None
    }

    fn set_holders(&mut self, i: usize, holders: u64)
        requires
            i < old(self)@.len(),
            holders >= 1,
        ensures
            final(self)@ == old(self)@.update(
                i as int,
                EntryView { holders, ..old(self)@[i as int] },
            ),
    {
        proof {
            use_type_invariant(&*self);
        }
        let ghost before = self@;
        let mut entries: Vec<Entry> = Vec::new();
        std::mem::swap(&mut entries, &mut self.entries);
        let mut entry = entries.remove(i);
        entry.holders = holders;
        entries.insert(i, entry);
        proof {
            let after = before.update(i as int, EntryView { holders, ..before[i as int] });
            assert(views(entries@) =~= after);
            lemma_same_keys(before, after);
        }
        self.entries = entries;
    }

    fn touch(&mut self, i: usize, now: u64)
        requires
            i < old(self)@.len(),
        ensures
            final(self).entries@.len() == old(self).entries@.len(),
            final(self).entries@[i as int].status == old(self).entries@[i as int].status,
            final(self)@ == old(self)@.update(
                i as int,
                EntryView { last_access: now, ..old(self)@[i as int] },
            ),
    {
        proof {
            use_type_invariant(&*self);
        }
        let ghost before = self@;
        let mut entries: Vec<Entry> = Vec::new();
        std::mem::swap(&mut entries, &mut self.entries);
        let mut entry = entries.remove(i);
        entry.last_access = now;
        entries.insert(i, entry);
        proof {
            let after = before.update(i as int, EntryView { last_access: now, ..before[i as int] });
            assert(views(entries@) =~= after);
            lemma_same_keys(before, after);
        }
        self.entries = entries;
    }

    fn settle(&mut self, key: &Key, outcome: LoadingStatus, now: u64)
        ensures
            final(self)@ == settled(old(self)@, key@, outcome@, now),
    {
        match self.index_of(key) {
            Some(i) => {
                proof {
                    use_type_invariant(&*self);
                }
                let ghost before = self@;
                let mut entries: Vec<Entry> = Vec::new();
                std::mem::swap(&mut entries, &mut self.entries);
                let mut entry = entries.remove(i);
                if entry.status.is_loading() {
                    entry.status = outcome;
                }
                entry.last_access = now;
                entries.insert(i, entry);
                proof {
                    let after = settled(before, key@, outcome@, now);
                    assert(views(entries@) =~= after);
                    lemma_same_keys(before, after);
                }
                self.entries = entries;
            },
            None => {},
        }
    }
}

/// A table that has, place by place, the keys of a consistent table, and at
/// least one holder for each entry, is consistent.
proof fn lemma_same_keys(before: Seq<EntryView>, after: Seq<EntryView>)
    requires
        keys_distinct(before),
        after.len() == before.len(),
        forall|i: int| 0 <= i < before.len() ==> (#[trigger] after[i]).key == before[i].key,
        forall|i: int| 0 <= i < after.len() ==> (#[trigger] after[i]).holders >= 1,
    ensures
        keys_distinct(after),
        held_by_table(after),
{
    assert forall|i: int, j: int| 0 <= i < j < after.len() implies after[i].key != after[j].key by {
        assert(before[i].key != before[j].key);
    }
}

/// Asks for the image of `key` at the time `now`.  The first result is the
/// caller's hold on the entry.  The second is the loader's hold: it is there
/// if and only if the key had no entry, and then the caller starts the one
/// fetch that this entry will ever have.
pub fn get_context(cache: &mut ImageCache, key: Key, now: u64) -> (holds: (
    LoadContext,
    Option<LoadContext>,
))
    ensures
        final(cache)@ == requested(old(cache)@, key@, now),
        keys_distinct(final(cache)@),
        holds.0.key() == key@,
        holds.1 is Some <==> !has_key(old(cache)@, key@),
        holds.1 matches Some(loader) ==> loader.key() == key@,
{
    proof {
        use_type_invariant(&*cache);
        lemma_request(cache@, key@, now);
    }
    match cache.index_of(&key) {
        Some(i) => {
            let holders = cache.entries[i].holders;
            if holders < u64::MAX {
                cache.set_holders(i, holders + 1);
            } else {
                proof {
                    assert(cache@ =~= shared(cache@, key@));
                }
            }
            (LoadContext { key }, None)
        },
        None => {
            let ghost before = cache@;
            let loader = LoadContext { key: key.clone() };
            let mut entries: Vec<Entry> = Vec::new();
            std::mem::swap(&mut entries, &mut cache.entries);
            entries.push(
                Entry {
                    key: key.clone(),
                    status: LoadingStatus::Loading,
                    last_access: now,
                    holders: 3,
                },
            );
            proof {
                assert(views(entries@) =~= requested(before, key@, now));
            }
            cache.entries = entries;
            (LoadContext { key }, Some(loader))
        },
    }
}

/// Sweeps the table at the time `now`: takes out each entry that is stale and
/// that only the table holds, and leaves every other entry as it is.  The
/// result names the textures of the loaded entries that went, for the UI to
/// free.
pub fn cleanup(cache: &mut ImageCache, now: u64) -> (textures: Vec<TextureId>)
    ensures
        final(cache)@ == swept(old(cache)@, now),
        textures@ == freed(old(cache)@, now),
        keys_distinct(final(cache)@),
{
    proof {
        use_type_invariant(&*cache);
    }
    let ghost before = cache@;
    let mut entries: Vec<Entry> = Vec::new();
    std::mem::swap(&mut entries, &mut cache.entries);
    let mut textures: Vec<TextureId> = Vec::new();
    let mut i: usize = 0;
    let ghost mut k: int = 0;
    proof {
        reveal(Seq::filter);
        assert(before.take(0).filter(|e: EntryView| !reclaimable(e, now)) =~= views(
            entries@,
        ).take(0));
        assert(views(entries@).skip(0) =~= before.skip(0));
    }
    while i < entries.len()
        invariant
            views(entries@).len() == entries@.len(),
            0 <= i <= entries@.len(),
            0 <= k <= before.len(),
            before.len() - k == entries@.len() - i,
            views(entries@).take(i as int) == before.take(k).filter(
                |e: EntryView| !reclaimable(e, now),
            ),
            views(entries@).skip(i as int) == before.skip(k),
            textures@ == freed(before.take(k), now),
        decreases entries.len() - i,
    {
        let ghost table = views(entries@);
        proof {
            reveal(Seq::filter);
            assert(table[i as int] == table.skip(i as int)[0]);
            assert(before[k] == before.skip(k)[0]);
            assert(before.take(k + 1).drop_last() =~= before.take(k));
            assert(before.take(k + 1).last() == before[k]);
        }
        let entry = &entries[i];
        if entry.holders == 1 && now > entry.last_access && now - entry.last_access
            > STALE_AFTER_MS {
            let gone = entries.remove(i);
            match gone.status {
                LoadingStatus::Loaded(id) => {
                    textures.push(id);
                },
                _ => {},
            }
            proof {
                let rest = views(entries@).skip(i as int);
                let rest_before = before.skip(k + 1);
                assert(views(entries@) =~= table.remove(i as int));
                assert(views(entries@).take(i as int) =~= table.take(i as int));
                assert forall|j: int| 0 <= j < rest.len() implies rest[j] == rest_before[j] by {
                    assert(table.skip(i as int)[j + 1] == before.skip(k)[j + 1]);
                }
                assert(rest =~= rest_before);
                k = k + 1;
            }
        } else {
            proof {
                let rest = views(entries@).skip(i + 1);
                let rest_before = before.skip(k + 1);
                assert(table.take(i + 1) =~= table.take(i as int).push(table[i as int]));
                assert forall|j: int| 0 <= j < rest.len() implies rest[j] == rest_before[j] by {
                    assert(table.skip(i as int)[j + 1] == before.skip(k)[j + 1]);
                }
                assert(rest =~= rest_before);
                k = k + 1;
            }
            i += 1;
        }
    }
    proof {
        assert(views(entries@).take(i as int) =~= views(entries@));
        assert(before.take(k) =~= before);
        lemma_filter_keeps_distinct(before, now);
        lemma_sweep_keeps_holders(before, now);
    }
    cache.entries = entries;
    textures
}

/// After a sweep the table still holds each of its entries.
proof fn lemma_sweep_keeps_holders(s: Seq<EntryView>, now: u64)
    requires
        held_by_table(s),
    ensures
        held_by_table(swept(s, now)),
{
    let keep = |e: EntryView| !reclaimable(e, now);
    let r = swept(s, now);
    assert forall|i: int| 0 <= i < r.len() implies (#[trigger] r[i]).holders >= 1 by {
        assert(r.contains(r[i]));
        s.lemma_filter_contains_rev(keep, r[i]);
        let j = choose|j: int| 0 <= j < s.len() && s[j] == r[i];
        assert(s[j].holders >= 1);
    }
}

/// A sweep keeps every entry that somebody besides the table holds, and
/// every entry that is not stale, as it is and in its order; it takes out
/// every stale entry that only the table holds.
pub proof fn lemma_sweep(s: Seq<EntryView>, now: u64, i: int)
    requires
        keys_distinct(s),
        0 <= i < s.len(),
    ensures
        s[i].holders > 1 ==> swept(s, now).contains(s[i]),
        !stale(s[i], now) ==> swept(s, now).contains(s[i]),
        s[i].holders == 1 && stale(s[i], now) ==> !has_key(swept(s, now), s[i].key),
        keys_distinct(swept(s, now)),
        swept(s, now).len() <= s.len(),
{
    let keep = |e: EntryView| !reclaimable(e, now);
    let r = s.filter(keep);
    s.lemma_filter_len(keep);
    if keep(s[i]) {
        s.lemma_filter_contains(keep, i);
    } else if has_key(r, s[i].key) {
        let j = choose|j: int| 0 <= j < r.len() && (#[trigger] r[j]).key == s[i].key;
        s.lemma_filter_pred(keep, j);
        assert(r.contains(r[j]));
        s.lemma_filter_contains_rev(keep, r[j]);
        let j0 = choose|j0: int| 0 <= j0 < s.len() && s[j0] == r[j];
        lemma_position(s, j0);
        lemma_position(s, i);
    }
    lemma_filter_keeps_distinct(s, now);
}

/// A sweep leaves no key with two entries.
pub proof fn lemma_filter_keeps_distinct(s: Seq<EntryView>, now: u64)
    requires
        keys_distinct(s),
    ensures
        keys_distinct(swept(s, now)),
        forall|j: int|
            0 <= j < swept(s, now).len() ==> has_key(s, (#[trigger] swept(s, now)[j]).key),
    decreases s.len(),
{
    reveal(Seq::filter);
    let keep = |e: EntryView| !reclaimable(e, now);
    if s.len() > 0 {
        let front = s.drop_last();
        lemma_filter_keeps_distinct(front, now);
        let r = swept(front, now);
        assert(swept(s, now) == if keep(s.last()) {
            r.push(s.last())
        } else {
            r
        });
        assert forall|j: int| 0 <= j < r.len() implies has_key(s, (#[trigger] r[j]).key) && r[j].key
            != s.last().key by {
            assert(has_key(front, r[j].key));
            let a = choose|a: int| 0 <= a < front.len() && (#[trigger] front[a]).key == r[j].key;
            assert(s[a].key == r[j].key);
            assert(s[a].key != s[s.len() - 1].key);
        }
        if keep(s.last()) {
            assert(s[s.len() - 1].key == s.last().key);
        }
    }
}

/// The first request for a key starts its fetch; a request for a key that
/// has an entry starts none and makes no second entry.
pub proof fn lemma_request(s: Seq<EntryView>, key: Seq<char>, now: u64)
    requires
        keys_distinct(s),
        held_by_table(s),
    ensures
        keys_distinct(requested(s, key, now)),
        held_by_table(requested(s, key, now)),
        has_key(requested(s, key, now), key),
        has_key(s, key) ==> requested(s, key, now).len() == s.len(),
        !has_key(s, key) ==> requested(s, key, now).len() == s.len() + 1,
        forall|other: Seq<char>| has_key(s, other) ==> has_key(requested(s, key, now), other),
{
    let r = requested(s, key, now);
    if has_key(s, key) {
        let i = position(s, key);
        assert(r[i].key == key);
        assert forall|other: Seq<char>| has_key(s, other) implies has_key(r, other) by {
            let j = position(s, other);
            assert(r[j].key == other);
        }
    } else {
        assert(r[s.len() as int].key == key);
        assert forall|a: int, b: int| 0 <= a < b < r.len() implies r[a].key != r[b].key by {
            if b == s.len() {
                assert(s[a].key != key);
            }
        }
        assert forall|other: Seq<char>| has_key(s, other) implies has_key(r, other) by {
            let j = position(s, other);
            assert(r[j].key == other);
        }
    }
}

/// The table after `key` was asked for `n` times in a row.
pub open spec fn requested_times(s: Seq<EntryView>, key: Seq<char>, times: Seq<u64>) -> Seq<
    EntryView,
>
    decreases times.len(),
{
    if times.len() == 0 {
        s
    } else {
        requested(requested_times(s, key, times.drop_last()), key, times.last())
    }
}

/// How many fetches these requests start.
pub open spec fn fetches_started(s: Seq<EntryView>, key: Seq<char>, times: Seq<u64>) -> nat
    decreases times.len(),
{
    if times.len() == 0 {
        0
    } else {
        let earlier = fetches_started(s, key, times.drop_last());
        if has_key(requested_times(s, key, times.drop_last()), key) {
            earlier
        } else {
            earlier + 1
        }
    }
}

/// However often a key is asked for, one fetch is started for it: by the
/// first request, if the key had no entry, and by none, if it had one.  All
/// requests end at the one entry of the key.
pub proof fn lemma_one_fetch_per_key(s: Seq<EntryView>, key: Seq<char>, times: Seq<u64>)
    requires
        keys_distinct(s),
        held_by_table(s),
    ensures
        keys_distinct(requested_times(s, key, times)),
        held_by_table(requested_times(s, key, times)),
        times.len() > 0 ==> has_key(requested_times(s, key, times), key),
        has_key(s, key) ==> has_key(requested_times(s, key, times), key),
        fetches_started(s, key, times) == (if times.len() == 0 || has_key(s, key) {
            0nat
        } else {
            1nat
        }),
    decreases times.len(),
{
    if times.len() > 0 {
        lemma_one_fetch_per_key(s, key, times.drop_last());
        lemma_request(requested_times(s, key, times.drop_last()), key, times.last());
    }
}

/// An outcome is final.  Once the entry of a key holds a texture or a
/// failure, it holds the same after any request, look, report of the loader,
/// new hold or release, for this key or another; and a sweep either leaves
/// the entry as it is, or nobody held it any more.  So all who hold the key
/// see the same outcome.
pub proof fn lemma_outcome_is_final(
    s: Seq<EntryView>,
    key: Seq<char>,
    other: Seq<char>,
    outcome: StatusView,
    now: u64,
)
    requires
        keys_distinct(s),
        has_key(s, key),
        !(status_of(s, key).unwrap() is Loading),
    ensures
        status_of(requested(s, other, now), key) == status_of(s, key),
        status_of(touched(s, other, now), key) == status_of(s, key),
        status_of(settled(s, other, outcome, now), key) == status_of(s, key),
        status_of(shared(s, other), key) == status_of(s, key),
        status_of(released(s, other), key) == status_of(s, key),
        status_of(swept(s, now), key) == status_of(s, key) || (s[position(s, key)].holders == 1
            && !has_key(swept(s, now), key)),
{
    let i = position(s, key);
    lemma_position(s, i);
    lemma_same_entry(s, requested(s, other, now), i);
    lemma_same_entry(s, touched(s, other, now), i);
    lemma_same_entry(s, settled(s, other, outcome, now), i);
    lemma_same_entry(s, shared(s, other), i);
    lemma_same_entry(s, released(s, other), i);
    lemma_sweep(s, now, i);
    let r = swept(s, now);
    if r.contains(s[i]) {
        let j = choose|j: int| 0 <= j < r.len() && r[j] == s[i];
        lemma_position(r, j);
    }
}

/// Where `after` has, at the position `i`, an entry with the key and the
/// status of the one in `before`, and holds each key of `before` where it
/// stood, the status of that key is the same in both.
proof fn lemma_same_entry(before: Seq<EntryView>, after: Seq<EntryView>, i: int)
    requires
        keys_distinct(before),
        0 <= i < before.len(),
        before.len() <= after.len(),
        forall|j: int| 0 <= j < before.len() ==> (#[trigger] after[j]).key == before[j].key,
        after.len() > before.len() ==> after.len() == before.len() + 1 && !has_key(
            before,
            after[before.len() as int].key,
        ),
        after[i].status == before[i].status,
    ensures
        status_of(after, before[i].key) == status_of(before, before[i].key),
{
    lemma_position(before, i);
    assert(after[i].key == before[i].key);
    assert forall|a: int, b: int| 0 <= a < b < after.len() implies after[a].key != after[b].key by {
        if b < before.len() {
            assert(before[a].key != before[b].key);
        } else {
            assert(before[a].key == after[a].key);
        }
    }
    lemma_position(after, i);
}

/// What can happen to the table between two sweeps.
pub enum Step {
    /// The key is asked for.
    Request { key: Seq<char>, now: u64 },
    /// A holder looks at the entry of the key.
    Look { key: Seq<char>, now: u64 },
    /// The loader reports an outcome for the key.
    Report { key: Seq<char>, outcome: StatusView, now: u64 },
    /// A holder of the key makes a second hold.
    Share { key: Seq<char> },
    /// A holder of the key lets go.
    Release { key: Seq<char> },
}

/// The table after `step`.
pub open spec fn after_step(s: Seq<EntryView>, step: Step) -> Seq<EntryView> {
    match step {
        Step::Request { key, now } => requested(s, key, now),
        Step::Look { key, now } => touched(s, key, now),
        Step::Report { key, outcome, now } => settled(s, key, outcome, now),
        Step::Share { key } => shared(s, key),
        Step::Release { key } => released(s, key),
    }
}

/// The table after `steps`, one after the other.
pub open spec fn after_steps(s: Seq<EntryView>, steps: Seq<Step>) -> Seq<EntryView>
    decreases steps.len(),
{
    if steps.len() == 0 {
        s
    } else {
        after_step(after_steps(s, steps.drop_last()), steps.last())
    }
}

/// The status that the entry of `key` has after `step`, given the status
/// that it had: a report for this key settles an entry that is loading, and
/// nothing else changes a status.
pub open spec fn status_after(status: StatusView, key: Seq<char>, step: Step) -> StatusView {
    match step {
        Step::Report { key: reported, outcome, now } if reported == key && status is Loading =>
            outcome,
        _ => status,
    }
}

/// A step leaves the table consistent, keeps the entry of every key that has
/// one, and changes the status of an entry only as `status_after` says.
pub proof fn lemma_step(s: Seq<EntryView>, key: Seq<char>, step: Step)
    requires
        keys_distinct(s),
        held_by_table(s),
        has_key(s, key),
    ensures
        keys_distinct(after_step(s, step)),
        held_by_table(after_step(s, step)),
        has_key(after_step(s, step), key),
        status_of(after_step(s, step), key) == Some(
            status_after(status_of(s, key).unwrap(), key, step),
        ),
{
    let i = position(s, key);
    lemma_position(s, i);
    let after = after_step(s, step);
    match step {
        Step::Request { key: other, now } => {
            lemma_request(s, other, now);
            lemma_same_entry(s, after, i);
        },
        Step::Look { key: other, now } => {
            lemma_same_keys(s, after);
            lemma_same_entry(s, after, i);
        },
        Step::Report { key: other, outcome, now } => {
            lemma_same_keys(s, after);
            if other == key && s[i].status is Loading {
                assert(after[i].key == key);
                lemma_position(after, i);
            } else {
                lemma_same_entry(s, after, i);
            }
        },
        Step::Share { key: other } => {
            lemma_same_keys(s, after);
            lemma_same_entry(s, after, i);
        },
        Step::Release { key: other } => {
            lemma_same_keys(s, after);
            lemma_same_entry(s, after, i);
        },
    }
    assert(after[i].key == key);
}

/// An outcome stays.  Once the entry of a key holds a texture or a failure,
/// it holds the same after any number of requests, looks, reports, new holds
/// and releases, for this key or others, in any order.
pub proof fn lemma_outcome_stays(s: Seq<EntryView>, key: Seq<char>, steps: Seq<Step>)
    requires
        keys_distinct(s),
        held_by_table(s),
        has_key(s, key),
        !(status_of(s, key).unwrap() is Loading),
    ensures
        keys_distinct(after_steps(s, steps)),
        held_by_table(after_steps(s, steps)),
        has_key(after_steps(s, steps), key),
        status_of(after_steps(s, steps), key) == status_of(s, key),
        texture_read(after_steps(s, steps), key) == texture_read(s, key),
        error_read(after_steps(s, steps), key) == error_read(s, key),
    decreases steps.len(),
{
    if steps.len() > 0 {
        lemma_outcome_stays(s, key, steps.drop_last());
        lemma_step(after_steps(s, steps.drop_last()), key, steps.last());
    }
}

/// While a key is only asked for, its entry is loading.
pub proof fn lemma_requests_wait(s: Seq<EntryView>, key: Seq<char>, times: Seq<u64>)
    requires
        keys_distinct(s),
        held_by_table(s),
        !has_key(s, key),
        times.len() >= 1,
    ensures
        keys_distinct(requested_times(s, key, times)),
        held_by_table(requested_times(s, key, times)),
        status_of(requested_times(s, key, times), key) == Some(StatusView::Loading),
    decreases times.len(),
{
    let earlier = requested_times(s, key, times.drop_last());
    lemma_one_fetch_per_key(s, key, times.drop_last());
    lemma_one_fetch_per_key(s, key, times);
    if times.len() == 1 {
        assert(earlier == s);
        let made = requested(s, key, times.last());
        assert(made[s.len() as int].key == key);
        lemma_position(made, s.len() as int);
    } else {
        lemma_requests_wait(s, key, times.drop_last());
        lemma_step(earlier, key, Step::Request { key, now: times.last() });
    }
}

/// All who hold a key read one outcome.  However many ask for a key that had
/// no entry, one fetch is started; all of them hold the one entry of the key;
/// and once the loader has reported, every look through any of the holds, in
/// any order and among whatever else happens before the next sweep, gives
/// the texture or the failure that the loader reported.
pub proof fn lemma_holders_read_one_outcome(
    s: Seq<EntryView>,
    key: Seq<char>,
    times: Seq<u64>,
    outcome: StatusView,
    done: u64,
    steps: Seq<Step>,
)
    requires
        keys_distinct(s),
        held_by_table(s),
        !has_key(s, key),
        times.len() >= 1,
        !(outcome is Loading),
    ensures
        fetches_started(s, key, times) == 1,
        status_of(requested_times(s, key, times), key) == Some(StatusView::Loading),
        status_of(
            after_steps(settled(requested_times(s, key, times), key, outcome, done), steps),
            key,
        ) == Some(outcome),
        texture_read(
            after_steps(settled(requested_times(s, key, times), key, outcome, done), steps),
            key,
        ) == (match outcome {
            StatusView::Loaded(id) => Some(id),
            _ => None::<TextureId>,
        }),
        error_read(
            after_steps(settled(requested_times(s, key, times), key, outcome, done), steps),
            key,
        ) == (match outcome {
            StatusView::Error(text) => Some(text),
            _ => None::<Seq<char>>,
        }),
{
    let asked = requested_times(s, key, times);
    lemma_one_fetch_per_key(s, key, times);
    lemma_requests_wait(s, key, times);
    lemma_step(asked, key, Step::Report { key, outcome, now: done });
    lemma_outcome_stays(settled(asked, key, outcome, done), key, steps);
}

/// A decoded image: rows of pixels, four bytes (red, green, blue, alpha) to
/// the pixel.
#[derive(Debug)]
pub struct PixelBuffer {
    pub width: u32,
    pub height: u32,
    pub pixels: Vec<u8>,
}

impl PixelBuffer {
    /// There are four bytes for each pixel.
    pub open spec fn wf(&self) -> bool {
        self.pixels@.len() == 4 * self.width * self.height
    }
}

/// What the network gave for an image.
#[derive(Debug)]
pub enum Download {
    /// The server was not reached; the text says why.
    NoConnection(String),
    /// The server answered, but the body did not arrive; the text says why.
    Interrupted(String),
    /// The body of the answer.
    Body(Vec<u8>),
}

/// A decoded image on its way to the UI, which alone can make a texture of
/// it, with the loader's hold on the entry that waits for the texture.
#[derive(Debug)]
pub struct ToUIImage {
    pub context: LoadContext,
    pub image: PixelBuffer,
}

/// What is recorded of a body that is refused because it may be a lossless
/// JPEG.
pub const LOSSLESS_REFUSED: &'static str = "\"Lossless JPEG is not supported\"";

/// What is recorded of a body that is refused because the machine's words
/// are too short.
pub const MACHINE_REFUSED: &'static str = "\"Images are decoded on machines of 64 bits only\"";

/// The machine's words are long enough for the buffer of any image that the
/// decoder lets through.
pub open spec fn wide_enough() -> bool {
    usize::BITS >= 64
}

/// `bytes` begin as a JPEG file does.
pub open spec fn is_jpeg(bytes: Seq<u8>) -> bool {
    bytes.len() >= 3 && bytes[0] == 0xFF && bytes[1] == 0xD8 && bytes[2] == 0xFF
}

/// Somewhere in `bytes` stands the marker that opens a lossless frame: the
/// byte `FF` and after it the byte `C3`.
pub open spec fn has_lossless_marker(bytes: Seq<u8>) -> bool {
    exists|i: int|
        0 <= i && i + 1 < bytes.len() && #[trigger] bytes[i] == 0xFF && bytes[i + 1] == 0xC3
}

/// `bytes` may be a lossless JPEG: they begin as a JPEG file does, and hold
/// the marker of a lossless frame.  The marker is looked for in the whole
/// body, so a JPEG of another kind that holds the two bytes by chance, in a
/// comment or a profile, counts too.
pub open spec fn lossless_jpeg(bytes: Seq<u8>) -> bool {
    is_jpeg(bytes) && has_lossless_marker(bytes)
}

/// Whether `bytes` may be a lossless JPEG.
pub fn is_lossless_jpeg(bytes: &Vec<u8>) -> (lossless: bool)
    ensures
        lossless == lossless_jpeg(bytes@),
{
    let n = bytes.len();
    if n < 3 || bytes[0] != 0xFF || bytes[1] != 0xD8 || bytes[2] != 0xFF {
        return false;
    }
    let mut i: usize = 0;
    while i + 1 < n
        invariant
            n == bytes@.len(),
            is_jpeg(bytes@),
            i + 1 <= n,
            forall|j: int| 0 <= j < i ==> !(#[trigger] bytes@[j] == 0xFF && bytes@[j + 1] == 0xC3),
        decreases n - i,
    {
        if bytes[i] == 0xFF && bytes[i + 1] == 0xC3 {
            assert(bytes@[i as int] == 0xFF && bytes@[i + 1] == 0xC3);
            return true;
        }
        i += 1;
    }
    false
}

/// Decodes an image with `image::load_from_memory`, which guesses the format
/// from the first bytes (PNG, JPEG and GIF are built in), and converts it
/// with `DynamicImage::to_rgba8`.  Trusted: that a decoded image has four
/// bytes for each of its pixels.  Nothing is said of which image, or which
/// error, the bytes give: the JPEG decoder picks its arithmetic by the
/// processor that it runs on, so the same bytes need not give the same
/// pixels everywhere.  A lossless JPEG is kept from the call: for a frame of
/// other than eight bits to the sample the JPEG decoder hands out two bytes
/// to the sample where one is expected, and the copy of them panics.  The
/// decoder refuses an image of more than 512 MiB, so the conversion needs
/// up to 2 GiB: that can be had with words of 64 bits, and with words of 32
/// bits the call is not made.  An error comes back as its message, in quotes.
#[verifier::external_body]
fn decode(bytes: &Vec<u8>) -> (outcome: Result<PixelBuffer, String>)
    requires
        wide_enough(),
        !lossless_jpeg(bytes@),
    ensures
        outcome matches Ok(image) ==> image.wf(),
{
    match ::image::load_from_memory(bytes.as_slice()) {
        Ok(image) => {
            let rgba = image.to_rgba8();
            Ok(PixelBuffer { width: rgba.width(), height: rgba.height(), pixels: rgba.into_raw() })
        },
        Err(e) => Err(format!("{:?}", e.to_string())),
    }
}

/// The table after loading `key` failed with `message`: the entry holds the
/// message, and the loader has let go of it.
pub open spec fn failed(s: Seq<EntryView>, key: Seq<char>, message: Seq<char>, now: u64) -> Seq<
    EntryView,
> {
    released(settled(s, key, StatusView::Error(message), now), key)
}

fn fail(cache: &mut ImageCache, context: LoadContext, reason: &str, detail: &str, now: u64)
    ensures
        final(cache)@ == failed(old(cache)@, context.key(), reason@ + detail@, now),
{
    let message = String::from_str(reason).concat(detail);
    context.set_error(cache, message, now);
    context.release(cache);
}

/// Takes what the decoder made of a downloaded image.  A decoded image goes
/// on to the UI together with the loader's hold, and the table stays as it
/// is; a failure is recorded in the entry, and the hold is given back.
pub fn finish_decode(
    cache: &mut ImageCache,
    context: LoadContext,
    outcome: Result<PixelBuffer, String>,
    now: u64,
) -> (to_ui: Option<ToUIImage>)
    ensures
        match outcome {
            Ok(image) => to_ui == Some((ToUIImage { context, image })) && final(cache)@ == old(
                cache,
            )@,
            Err(message) => to_ui is None && final(cache)@ == failed(
                old(cache)@,
                context.key(),
                "Could not decode image: "@ + message@,
                now,
            ),
        },
{
    match outcome {
        Ok(image) => Some(ToUIImage { context, image }),
        Err(message) => {
            fail(cache, context, "Could not decode image: ", message.as_str(), now);
            None
        },
    }
}

/// The loader's work once the network has answered.  A download that failed
/// is recorded in the entry.  On a machine with words of less than 64 bits
/// every body is refused, on any machine a body that may be a lossless JPEG,
/// and that is recorded.  Any other body is decoded, and the outcome handled
/// as `finish_decode` says: either an image with four bytes to the pixel
/// goes on to the UI and the table stays as it is, or the decoder's message
/// is recorded in the entry.  Which of the two, the decoder decides.
pub fn load_image_async(
    cache: &mut ImageCache,
    context: LoadContext,
    download: Download,
    now: u64,
) -> (to_ui: Option<ToUIImage>)
    ensures
        match download {
            Download::NoConnection(why) => to_ui is None && final(cache)@ == failed(
                old(cache)@,
                context.key(),
                "Could not connect to server: "@ + why@,
                now,
            ),
            Download::Interrupted(why) => to_ui is None && final(cache)@ == failed(
                old(cache)@,
                context.key(),
                "Could not download image: "@ + why@,
                now,
            ),
            Download::Body(bytes) => if !wide_enough() {
                to_ui is None && final(cache)@ == failed(
                    old(cache)@,
                    context.key(),
                    "Could not decode image: "@ + MACHINE_REFUSED@,
                    now,
                )
            } else if lossless_jpeg(bytes@) {
                to_ui is None && final(cache)@ == failed(
                    old(cache)@,
                    context.key(),
                    "Could not decode image: "@ + LOSSLESS_REFUSED@,
                    now,
                )
            } else {
                match to_ui {
                    Some(ready) => {
                        &&& ready.context == context
                        &&& ready.image.wf()
                        &&& final(cache)@ == old(cache)@
                    },
                    None => exists|message: Seq<char>|
                        final(cache)@ == #[trigger] failed(
                            old(cache)@,
                            context.key(),
                            "Could not decode image: "@ + message,
                            now,
                        ),
                }
            },
        },
{
    match download {
        Download::NoConnection(why) => {
            fail(cache, context, "Could not connect to server: ", why.as_str(), now);
            None
        },
        Download::Interrupted(why) => {
            fail(cache, context, "Could not download image: ", why.as_str(), now);
            None
        },
        Download::Body(bytes) => {
            if usize::BITS < 64 {
                fail(cache, context, "Could not decode image: ", MACHINE_REFUSED, now);
                None
            } else if is_lossless_jpeg(&bytes) {
                fail(cache, context, "Could not decode image: ", LOSSLESS_REFUSED, now);
                None
            } else {
                let outcome = decode(&bytes);
                finish_decode(cache, context, outcome, now)
            }
        },
    }
}

impl ToUIImage {
    /// Records the texture that the UI made of the image, and gives the
    /// loader's hold back.
    pub fn finish_load(self, cache: &mut ImageCache, texture: TextureId, now: u64)
        ensures
            final(cache)@ == released(
                settled(old(cache)@, self.context.key(), StatusView::Loaded(texture), now),
                self.context.key(),
            ),
    {
        self.context.set_texture_id(cache, texture, now);
        self.context.release(cache);
    }
}

} // verus!
