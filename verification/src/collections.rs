//! Hash maps keyed by integers or by names.
use hashbrown::HashMap;
use vstd::prelude::*;

verus! {

/// A `hashbrown::HashMap` from integers to counters.
#[verifier::external_body]
pub struct WordMap {
    inner: HashMap<u64, u64>,
}

/// The entries of a [`WordMap`].
pub uninterp spec fn word_entries(m: WordMap) -> Map<u64, u64>;

impl View for WordMap {
    type V = Map<u64, u64>;

    open spec fn view(&self) -> Map<u64, u64> {
        word_entries(*self)
    }
}

impl WordMap {
    /// `hashbrown::HashMap::new`: the map without entries.
    #[verifier::external_body]
    pub(crate) fn new() -> (r: Self)
        ensures
            word_entries(r).is_empty(),
            word_entries(r).dom().finite(),
    {
        WordMap { inner: HashMap::new() }
    }

    /// `hashbrown::HashMap::insert`: binds the key to the value, whatever it was bound to.
    #[verifier::external_body]
    pub(crate) fn insert(&mut self, key: u64, value: u64)
        ensures
            word_entries(*final(self)) == word_entries(*old(self)).insert(key, value),
    {
        self.inner.insert(key, value);
    }

    /// `hashbrown::HashMap::get`: the value that the key is bound to, if any.
    #[verifier::external_body]
    pub(crate) fn get(&self, key: u64) -> (r: Option<u64>)
        ensures
            r == (if word_entries(*self).contains_key(key) {
                Some(word_entries(*self)[key])
            } else {
                None
            }),
    {
        self.inner.get(&key).copied()
    }

    /// `hashbrown::HashMap::clear`: removes every entry.
    #[verifier::external_body]
    pub(crate) fn clear(&mut self)
        ensures
            word_entries(*final(self)).is_empty(),
            word_entries(*final(self)).dom().finite(),
    {
        self.inner.clear();
    }

    /// `hashbrown::HashMap::len`: the number of entries.
    #[verifier::external_body]
    pub(crate) fn len(&self) -> (r: usize)
        ensures
            word_entries(*self).dom().finite() ==> r == word_entries(*self).dom().len(),
    {
        self.inner.len()
    }

    /// `hashbrown::HashMap::values`: the values of the entries, each as often as it is bound, in
    /// an order that is not stated.
    #[verifier::external_body]
    pub(crate) fn values(&self) -> (r: Vec<u64>)
        ensures
            forall|k: u64|
                word_entries(*self).contains_key(k) ==> r@.contains(#[trigger] word_entries(*self)[k]),
            forall|i: int| 0 <= i < r@.len() ==> word_entries(*self).contains_value(#[trigger] r@[i]),
    {
        self.inner.values().copied().collect()
    }

    /// `hashbrown::HashMap::iter`: the entries, each once, in an order that is not stated.
    #[verifier::external_body]
    pub(crate) fn entries(&self) -> (r: Vec<(u64, u64)>)
        ensures
            forall|i: int|
                0 <= i < r@.len() ==> word_entries(*self).contains_key((#[trigger] r@[i]).0)
                    && word_entries(*self)[r@[i].0] == r@[i].1,
            forall|k: u64| #[trigger]
                word_entries(*self).contains_key(k) ==> exists|i: int|
                    0 <= i < r@.len() && (#[trigger] r@[i]).0 == k,
            forall|i: int, j: int|
                0 <= i < j < r@.len() ==> (#[trigger] r@[i]).0 != (#[trigger] r@[j]).0,
    {
        self.inner.iter().map(|(k, v)| (*k, *v)).collect()
    }
}

/// A `hashbrown::HashMap` from places to what they held: a timestamp and a value, or nothing.
#[verifier::external_body]
pub struct DiffMap {
    inner: HashMap<u32, Option<(u64, u32)>>,
}

/// The entries of a [`DiffMap`].
pub uninterp spec fn diff_entries(m: DiffMap) -> Map<u32, Option<(u64, u32)>>;

impl View for DiffMap {
    type V = Map<u32, Option<(u64, u32)>>;

    open spec fn view(&self) -> Map<u32, Option<(u64, u32)>> {
        diff_entries(*self)
    }
}

impl DiffMap {
    /// `hashbrown::HashMap::new`: the map without entries.
    #[verifier::external_body]
    pub(crate) fn new() -> (r: Self)
        ensures
            diff_entries(r).is_empty(),
    {
        DiffMap { inner: HashMap::new() }
    }

    /// `hashbrown::HashMap::entry` followed by `hashbrown::hash_map::Entry::or_insert`: binds the
    /// place to what it held, unless the place is bound already.
    #[verifier::external_body]
    pub(crate) fn note_first(&mut self, place: u32, held: Option<(u64, u32)>)
        ensures
            diff_entries(*final(self)) == (if diff_entries(*old(self)).contains_key(place) {
                diff_entries(*old(self))
            } else {
                diff_entries(*old(self)).insert(place, held)
            }),
    {
        self.inner.entry(place).or_insert(held);
    }

    /// `hashbrown::HashMap::into_iter`: the entries, each once, in an order that is not stated.
    #[verifier::external_body]
    pub(crate) fn entries(self) -> (r: Vec<(u32, Option<(u64, u32)>)>)
        ensures
            forall|i: int|
                0 <= i < r@.len() ==> diff_entries(self).contains_key((#[trigger] r@[i]).0)
                    && diff_entries(self)[r@[i].0] == r@[i].1,
            forall|k: u32| #[trigger]
                diff_entries(self).contains_key(k) ==> exists|i: int|
                    0 <= i < r@.len() && (#[trigger] r@[i]).0 == k,
            forall|i: int, j: int|
                0 <= i < j < r@.len() ==> (#[trigger] r@[i]).0 != (#[trigger] r@[j]).0,
    {
        self.inner.into_iter().collect()
    }
}

/// A `hashbrown::HashMap` from names to counts.
#[verifier::external_body]
pub struct NameMap {
    inner: HashMap<String, usize>,
}

/// The entries of a [`NameMap`].
pub uninterp spec fn name_entries(m: NameMap) -> Map<Seq<char>, usize>;

impl View for NameMap {
    type V = Map<Seq<char>, usize>;

    open spec fn view(&self) -> Map<Seq<char>, usize> {
        name_entries(*self)
    }
}

impl NameMap {
    /// `hashbrown::HashMap::new`: the map without entries.
    #[verifier::external_body]
    pub(crate) fn new() -> (r: Self)
        ensures
            name_entries(r).is_empty(),
    {
        NameMap { inner: HashMap::new() }
    }

    /// `hashbrown::HashMap::insert`: binds the name to the count, whatever it was bound to.
    #[verifier::external_body]
    pub(crate) fn insert(&mut self, name: String, count: usize)
        ensures
            name_entries(*final(self)) == name_entries(*old(self)).insert(name@, count),
    {
        self.inner.insert(name, count);
    }

    /// `hashbrown::HashMap::get`: the count that the name is bound to, if any.
    #[verifier::external_body]
    pub(crate) fn get(&self, name: &str) -> (r: Option<usize>)
        ensures
            r == (if name_entries(*self).contains_key(name@) {
                Some(name_entries(*self)[name@])
            } else {
                None
            }),
    {
        self.inner.get(name).copied()
    }

    /// The count of a name, zero if it has none.
    pub fn count(&self, name: &str) -> (r: usize)
        ensures
            r == (if self@.contains_key(name@) {
                self@[name@]
            } else {
                0
            }),
    {
        match self.get(name) {
            Some(count) => count,
            None => 0,
        }
    }
}

/// A `hashbrown::HashMap` from file descriptors to text.
#[verifier::external_body]
pub struct TextMap {
    inner: HashMap<u32, String>,
}

/// The entries of a [`TextMap`].
pub uninterp spec fn text_entries(m: TextMap) -> Map<u32, Seq<char>>;

impl View for TextMap {
    type V = Map<u32, Seq<char>>;

    open spec fn view(&self) -> Map<u32, Seq<char>> {
        text_entries(*self)
    }
}

impl TextMap {
    /// `hashbrown::HashMap::new`: the map without entries.
    #[verifier::external_body]
    pub(crate) fn new() -> (r: Self)
        ensures
            text_entries(r).is_empty(),
    {
        TextMap { inner: HashMap::new() }
    }

    /// `hashbrown::HashMap::insert`: binds the descriptor to the text, whatever it was bound to.
    #[verifier::external_body]
    pub(crate) fn insert(&mut self, fd: u32, text: String)
        ensures
            text_entries(*final(self)) == text_entries(*old(self)).insert(fd, text@),
    {
        self.inner.insert(fd, text);
    }

    /// `hashbrown::HashMap::remove`: unbinds the descriptor and gives back what it was bound to.
    #[verifier::external_body]
    pub(crate) fn remove(&mut self, fd: u32) -> (r: Option<String>)
        ensures
            text_entries(*final(self)) == text_entries(*old(self)).remove(fd),
            match r {
                Some(text) => text_entries(*old(self)).contains_key(fd) && text@ == text_entries(
                    *old(self),
                )[fd],
                None => !text_entries(*old(self)).contains_key(fd),
            },
    {
        self.inner.remove(&fd)
    }
}

/// A `hashbrown::HashMap` from names to a time and a depth.
#[verifier::external_body]
pub struct SpanMap {
    inner: HashMap<String, (u64, u32)>,
}

/// The entries of a [`SpanMap`].
pub uninterp spec fn span_entries(m: SpanMap) -> Map<Seq<char>, (u64, u32)>;

impl View for SpanMap {
    type V = Map<Seq<char>, (u64, u32)>;

    open spec fn view(&self) -> Map<Seq<char>, (u64, u32)> {
        span_entries(*self)
    }
}

impl SpanMap {
    /// `hashbrown::HashMap::new`: the map without entries.
    #[verifier::external_body]
    pub(crate) fn new() -> (r: Self)
        ensures
            span_entries(r).is_empty(),
            span_entries(r).dom().finite(),
    {
        SpanMap { inner: HashMap::new() }
    }

    /// `hashbrown::HashMap::insert`: binds the name to the span, whatever it was bound to.
    #[verifier::external_body]
    pub(crate) fn insert(&mut self, name: String, span: (u64, u32))
        ensures
            span_entries(*final(self)) == span_entries(*old(self)).insert(name@, span),
    {
        self.inner.insert(name, span);
    }

    /// `hashbrown::HashMap::remove`: unbinds the name and gives back what it was bound to.
    #[verifier::external_body]
    pub(crate) fn remove(&mut self, name: &str) -> (r: Option<(u64, u32)>)
        ensures
            span_entries(*final(self)) == span_entries(*old(self)).remove(name@),
            r == (if span_entries(*old(self)).contains_key(name@) {
                Some(span_entries(*old(self))[name@])
            } else {
                None
            }),
    {
        self.inner.remove(name)
    }

    /// `hashbrown::HashMap::len`: the number of entries.
    #[verifier::external_body]
    pub(crate) fn len(&self) -> (r: usize)
        ensures
            span_entries(*self).dom().finite() ==> r == span_entries(*self).dom().len(),
    {
        self.inner.len()
    }
}

} // verus!
