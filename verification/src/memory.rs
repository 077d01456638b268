//! Guest memory: a paged store of words, the register file, and a copy-on-write overlay.
use vstd::prelude::*;

use crate::register::NUM_REGISTERS;

pub mod config;
pub mod guest;

verus! {

/// The number of words in a page.
pub const PAGE_LEN: usize = 0x4000;

/// The number of pages in the address space.
pub const MAX_PAGE_COUNT: usize = 0x7F01;

/// Marks an absent page.
pub const NO_PAGE: u16 = 0xFFFF;

/// The number of words in the address space.
pub const MAX_WORDS: usize = 0x1FC0_4000;

/// Whether an address lies inside the paged address space.
pub open spec fn addressable(addr: u32) -> bool {
    addr / 4 < MAX_WORDS
}

/// Whether an address lies inside the paged address space.
pub fn is_addressable(addr: u32) -> (r: bool)
    ensures
        r == addressable(addr),
{
    ((addr / 4) as usize) < MAX_WORDS
}

/// The word an address belongs to. The two low bits of an address do not matter.
pub open spec fn slot(addr: u32) -> int {
    addr as int / 4
}

/// The value a map holds for a key, if any.
pub open spec fn lookup<V>(m: Map<int, V>, k: int) -> Option<V> {
    if m.contains_key(k) {
        Some(m[k])
    } else {
        None
    }
}

/// A map with one key bound to a value or unbound.
pub open spec fn assigned<V>(m: Map<int, V>, k: int, v: Option<V>) -> Map<int, V> {
    match v {
        Some(value) => m.insert(k, value),
        None => m.remove(k),
    }
}

/// A map filled from a list of pairs, later pairs overwriting earlier ones.
pub open spec fn collected<V>(items: Seq<(u32, V)>, n: int) -> Map<int, V>
    decreases n,
{
    if n <= 0 {
        Map::empty()
    } else {
        collected(items, n - 1).insert(slot(items[n - 1].0), items[n - 1].1)
    }
}

/// A page of memory.
#[derive(Debug, Clone)]
pub struct NewPage<V>(pub Vec<Option<V>>);

impl<V: Copy> NewPage<V> {
    /// Create a page with every word absent.
    pub fn new() -> (r: Self)
        ensures
            r.0@.len() == PAGE_LEN,
            forall|i: int| 0 <= i < PAGE_LEN ==> (#[trigger] r.0@[i]) is None,
    {
        NewPage(absent_words(PAGE_LEN))
    }
}

impl<V: Copy> Default for NewPage<V> {
    /// A page without words.
    fn default() -> (r: Self)
        ensures
            r.0@.len() == 0,
    {
        NewPage(Vec::new())
    }
}

/// A list of absent words.
fn absent_words<V: Copy>(n: usize) -> (r: Vec<Option<V>>)
    ensures
        r@.len() == n,
        forall|i: int| 0 <= i < n ==> (#[trigger] r@[i]) is None,
{
    let mut v: Vec<Option<V>> = Vec::with_capacity(n);
    let mut i: usize = 0;
    while i < n
        invariant
            i <= n,
            v@.len() == i,
            forall|j: int| 0 <= j < i ==> (#[trigger] v@[j]) is None,
        decreases n - i,
    {
        v.push(None);
        i = i + 1;
    }
    v
}

/// The number of present pages among the first `n` entries of a page index.
pub open spec fn pages_used(index: Seq<u16>, n: int) -> int
    decreases n,
{
    if n <= 0 {
        0
    } else {
        pages_used(index, n - 1) + if index[n - 1] == NO_PAGE {
            0int
        } else {
            1int
        }
    }
}

proof fn lemma_pages_used_bound(index: Seq<u16>, n: int)
    requires
        0 <= n <= index.len(),
    ensures
        0 <= pages_used(index, n) <= n,
    decreases n,
{
    if n > 0 {
        lemma_pages_used_bound(index, n - 1);
    }
}

/// Filling in an absent page raises the count by one, and the count was below the capacity.
proof fn lemma_pages_used_update(index: Seq<u16>, n: int, u: int, page: u16)
    requires
        0 <= u < index.len(),
        0 <= n <= index.len(),
        index[u] == NO_PAGE,
        page != NO_PAGE,
    ensures
        pages_used(index.update(u, page), n) == pages_used(index, n) + if u < n {
            1int
        } else {
            0int
        },
        u < n ==> pages_used(index, n) < n,
    decreases n,
{
    if n > 0 {
        lemma_pages_used_update(index, n - 1, u, page);
        lemma_pages_used_bound(index, n - 1);
    }
}

/// A page index after a page was touched: a page that was absent gets the next position.
pub open spec fn touched(index: Seq<u16>, pages: nat, upper: int) -> Seq<u16> {
    if index[upper] == NO_PAGE {
        index.update(upper, pages as u16)
    } else {
        index
    }
}

/// The number of pages after a page was touched.
pub open spec fn pages_touched(index: Seq<u16>, pages: nat, upper: int) -> nat {
    if index[upper] == NO_PAGE {
        pages + 1
    } else {
        pages
    }
}

/// The number of the page that an address belongs to.
pub open spec fn page_of(addr: u32) -> int {
    slot(addr) / (PAGE_LEN as int)
}

/// Paged memory: an index from page numbers to the pages that were touched.
#[derive(Debug, Clone)]
pub struct PagedMemory<V: Copy> {
    /// The pages that were touched, in the order of their first touch.
    pub page_table: Vec<NewPage<V>>,
    /// For each page number, the position of its page or [`NO_PAGE`].
    pub index: Vec<u16>,
}

impl<V: Copy> View for PagedMemory<V> {
    type V = Map<int, V>;

    /// The words that are present.
    open spec fn view(&self) -> Map<int, V> {
        Map::new(
            |w: int| 0 <= w < MAX_WORDS && self.cell(w) is Some,
            |w: int| self.cell(w)->Some_0,
        )
    }
}

impl<V: Copy> PagedMemory<V> {
    /// The content of a word.
    pub open spec fn cell(&self, w: int) -> Option<V> {
        let page = self.index@[w / (PAGE_LEN as int)];
        if page == NO_PAGE {
            None
        } else {
            self.page_table@[page as int].0@[w % (PAGE_LEN as int)]
        }
    }

    /// Every page is full-sized and belongs to exactly one page number.
    pub open spec fn wf(&self) -> bool {
        &&& self.index@.len() == MAX_PAGE_COUNT
        &&& self.page_table@.len() == pages_used(self.index@, MAX_PAGE_COUNT as int)
        &&& forall|u: int|
            0 <= u < MAX_PAGE_COUNT ==> (#[trigger] self.index@[u] == NO_PAGE || self.index@[u]
                < self.page_table@.len())
        &&& forall|u: int, v: int|
            0 <= u < MAX_PAGE_COUNT && 0 <= v < MAX_PAGE_COUNT && u != v && (
            #[trigger] self.index@[u]) != NO_PAGE ==> self.index@[u] != #[trigger] self.index@[v]
        &&& forall|p: int|
            0 <= p < self.page_table@.len() ==> (#[trigger] self.page_table@[p]).0@.len()
                == PAGE_LEN
    }

    /// No page is present.
    pub open spec fn pageless(&self) -> bool {
        &&& self.page_table@.len() == 0
        &&& forall|u: int| 0 <= u < MAX_PAGE_COUNT ==> (#[trigger] self.index@[u]) == NO_PAGE
    }

    /// The same pages are present as in another memory.
    pub open spec fn same_pages(&self, other: &Self) -> bool {
        &&& self.index@ == other.index@
        &&& self.page_table@.len() == other.page_table@.len()
    }

    /// The pages of another memory are present, and the page of an address.
    pub open spec fn touches(&self, before: &Self, addr: u32) -> bool {
        let pages = before.page_table@.len();
        &&& self.index@ == touched(before.index@, pages, page_of(addr))
        &&& self.page_table@.len() == pages_touched(before.index@, pages, page_of(addr))
    }

    /// Create an empty memory.
    pub fn new_preallocated() -> (r: Self)
        ensures
            r.wf(),
            r.pageless(),
            r@ == Map::<int, V>::empty(),
    {
        let mut index: Vec<u16> = Vec::with_capacity(MAX_PAGE_COUNT);
        let mut i: usize = 0;
        while i < MAX_PAGE_COUNT
            invariant
                i <= MAX_PAGE_COUNT,
                index@.len() == i,
                forall|j: int| 0 <= j < i ==> (#[trigger] index@[j]) == NO_PAGE,
                pages_used(index@, i as int) == 0,
            decreases MAX_PAGE_COUNT - i,
        {
            let ghost before = index@;
            index.push(NO_PAGE);
            i = i + 1;
            proof {
                lemma_pages_used_prefix(before, index@, i - 1);
            }
        }
        PagedMemory { page_table: Vec::new(), index }
    }

    /// The page number and the position inside the page.
    fn indices(addr: u32) -> (r: (usize, usize))
        ensures
            r.0 == slot(addr) / (PAGE_LEN as int),
            r.1 == slot(addr) % (PAGE_LEN as int),
            addressable(addr) ==> r.0 < MAX_PAGE_COUNT,
            r.1 < PAGE_LEN,
    {
        let word = Self::compress_addr(addr);
        (word / PAGE_LEN, word % PAGE_LEN)
    }

    /// Compress an address to a word number.
    fn compress_addr(addr: u32) -> (r: usize)
        ensures
            r == slot(addr),
    {
        (addr / 4) as usize
    }

    /// The address of a word number.
    fn decompress_addr(word: usize) -> (r: u32)
        requires
            word < MAX_WORDS,
        ensures
            r == word * 4,
    {
        (word * 4) as u32
    }

    /// The word at the given address, if it is present.
    pub fn get(&self, addr: u32) -> (r: Option<&V>)
        requires
            self.wf(),
            addressable(addr),
        ensures
            match r {
                Some(v) => self@.contains_key(slot(addr)) && *v == self@[slot(addr)],
                None => !self@.contains_key(slot(addr)),
            },
    {
        let (upper, lower) = Self::indices(addr);
        let index = self.index[upper];
        if index == NO_PAGE {
            None
        } else {
            self.page_table[index as usize].0[lower].as_ref()
        }
    }

    /// A mutable reference to the word at the given address, if it is present.
    pub fn get_mut(&mut self, addr: u32) -> (r: Option<&mut V>)
        requires
            old(self).wf(),
            addressable(addr),
        ensures
            final(self).wf(),
            final(self).same_pages(old(self)),
            match r {
                Some(v) => old(self)@.contains_key(slot(addr)) && *v == old(self)@[slot(addr)]
                    && final(self)@ == old(self)@.insert(slot(addr), *final(v)),
                None => !old(self)@.contains_key(slot(addr)) && final(self)@ == old(self)@,
            },
    {
        let (upper, lower) = Self::indices(addr);
        let index = self.index[upper];
        if index == NO_PAGE {
            None
        } else {
            self.page_table[index as usize].0[lower].as_mut()
        }
    }

    /// Makes the page of a page number present, without changing the contents.
    fn touch_page(&mut self, upper: usize) -> (r: usize)
        requires
            old(self).wf(),
            upper < MAX_PAGE_COUNT,
        ensures
            final(self).wf(),
            final(self)@ == old(self)@,
            r == final(self).index@[upper as int],
            r != NO_PAGE,
            r < final(self).page_table@.len(),
            final(self).index@ == touched(
                old(self).index@,
                old(self).page_table@.len(),
                upper as int,
            ),
            final(self).page_table@.len() == pages_touched(
                old(self).index@,
                old(self).page_table@.len(),
                upper as int,
            ),
            forall|w: int| 0 <= w < MAX_WORDS ==> final(self).cell(w) == old(self).cell(w),
    {
        let index = self.index[upper];
        if index != NO_PAGE {
            return index as usize;
        }
        let ghost was = *self;
        let position: usize = self.page_table.len();
        proof {
            lemma_pages_used_bound(was.index@, MAX_PAGE_COUNT as int);
            lemma_pages_used_update(was.index@, MAX_PAGE_COUNT as int, upper as int, position as u16);
        }
        self.index.set(upper, position as u16);
        self.page_table.push(NewPage::new());
        proof {
            assert forall|w: int| 0 <= w < MAX_WORDS implies self.cell(w) == was.cell(w) by {
                let u = w / (PAGE_LEN as int);
                assert(0 <= u < MAX_PAGE_COUNT);
                if u != upper {
                    let page = was.index@[u];
                    assert(page == NO_PAGE || page < was.page_table@.len());
                }
            }
            assert(self@ =~= was@);
        }
        position
    }

    /// Insert a value at the given address. Returns the previous value, if any.
    pub fn insert(&mut self, addr: u32, value: V) -> (r: Option<V>)
        requires
            old(self).wf(),
            addressable(addr),
        ensures
            final(self).wf(),
            r == lookup(old(self)@, slot(addr)),
            final(self)@ == old(self)@.insert(slot(addr), value),
            final(self).touches(old(self), addr),
    {
        let (upper, lower) = Self::indices(addr);
        let page = self.touch_page(upper);
        let ghost was = *self;
        let previous: Option<V> = self.page_table[page].0[lower];
        self.page_table[page].0.set(lower, Some(value));
        proof {
            lemma_cell_update(was, *self, upper as int, lower as int, Some(value));
            assert(slot(addr) == upper * PAGE_LEN + lower);
            assert(self@ =~= was@.insert(slot(addr), value));
        }
        previous
    }

    /// Remove the value at the given address, returning it if it exists.
    pub fn remove(&mut self, addr: u32) -> (r: Option<V>)
        requires
            old(self).wf(),
            addressable(addr),
        ensures
            final(self).wf(),
            r == lookup(old(self)@, slot(addr)),
            final(self)@ == old(self)@.remove(slot(addr)),
            final(self).same_pages(old(self)),
    {
        let (upper, lower) = Self::indices(addr);
        let index = self.index[upper];
        if index == NO_PAGE {
            proof {
                assert(self@.remove(slot(addr)) =~= self@);
            }
            None
        } else {
            let ghost was = *self;
            let page: usize = index as usize;
            let previous: Option<V> = self.page_table[page].0[lower];
            self.page_table[page].0.set(lower, None);
            proof {
                lemma_cell_update(was, *self, upper as int, lower as int, None);
                assert(slot(addr) == upper * PAGE_LEN + lower);
                assert(self@ =~= was@.remove(slot(addr)));
            }
            previous
        }
    }

    /// The entry of the given address, for in-place manipulation.
    pub fn entry(&mut self, addr: u32) -> (r: Entry<'_, V>)
        requires
            old(self).wf(),
            addressable(addr),
        ensures
            final(self).wf(),
            final(self).touches(old(self), addr),
            r.wf(),
            r.content() == lookup(old(self)@, slot(addr)),
            final(self)@ == assigned(old(self)@, slot(addr), (match r {
                Entry::Vacant(e) => *final(e.entry),
                Entry::Occupied(e) => *final(e.entry),
            })),
    {
        let (upper, lower) = Self::indices(addr);
        let page = self.touch_page(upper);
        let entry = &mut self.page_table[page].0[lower];
        if entry.is_some() {
            Entry::Occupied(OccupiedEntry { entry })
        } else {
            Entry::Vacant(VacantEntry { entry })
        }
    }
}

/// A list of addresses that names exactly the words of a map, in increasing order.
pub open spec fn lists_keys<V>(keys: Seq<u32>, m: Map<int, V>) -> bool {
    &&& forall|i: int, j: int| 0 <= i < j < keys.len() ==> #[trigger] keys[i] < #[trigger] keys[j]
    &&& forall|i: int|
        0 <= i < keys.len() ==> (#[trigger] keys[i]) % 4 == 0 && m.contains_key(slot(keys[i]))
    &&& forall|w: int| #[trigger] m.contains_key(w) ==> exists|i: int|
        0 <= i < keys.len() && #[trigger] keys[i] == w * 4
}

/// As many keys as words.
pub proof fn lemma_key_count<V>(keys: Seq<u32>, m: Map<int, V>)
    requires
        lists_keys(keys, m),
    ensures
        m.dom().finite(),
        m.dom().len() == keys.len(),
{
    let words = keys.map_values(|a: u32| slot(a));
    assert forall|i: int, j: int| 0 <= i < words.len() && 0 <= j < words.len() && i != j implies words[i]
        != words[j] by {
        assert(words[i] * 4 == keys[i] && words[j] * 4 == keys[j]);
        if i < j {
            assert(keys[i] < keys[j]);
        } else {
            assert(keys[j] < keys[i]);
        }
    }
    assert(words.no_duplicates());
    words.unique_seq_to_set();
    assert(words.to_set() =~= m.dom()) by {
        assert forall|w: int| m.dom().contains(w) implies words.to_set().contains(w) by {
            assert(m.contains_key(w));
            let i = choose|i: int| 0 <= i < keys.len() && #[trigger] keys[i] == w * 4;
            assert(words[i] == w);
        }
    }
}

impl<V: Copy> PagedMemory<V> {
    /// The occupied addresses, in increasing order.
    pub fn keys(&self) -> (r: Vec<u32>)
        requires
            self.wf(),
        ensures
            lists_keys(r@, self@),
    {
        let mut keys: Vec<u32> = Vec::new();
        let mut upper: usize = 0;
        while upper < MAX_PAGE_COUNT
            invariant
                self.wf(),
                upper <= MAX_PAGE_COUNT,
                forall|i: int, j: int|
                    0 <= i < j < keys@.len() ==> #[trigger] keys@[i] < #[trigger] keys@[j],
                forall|i: int|
                    0 <= i < keys@.len() ==> (#[trigger] keys@[i]) % 4 == 0 && self@.contains_key(
                        slot(keys@[i]),
                    ) && slot(keys@[i]) < upper * PAGE_LEN,
                forall|w: int| #[trigger]
                    self@.contains_key(w) && w < upper * PAGE_LEN ==> exists|i: int|
                        0 <= i < keys@.len() && #[trigger] keys@[i] == w * 4,
            decreases MAX_PAGE_COUNT - upper,
        {
            let page = self.index[upper];
            if page != NO_PAGE {
                let mut lower: usize = 0;
                while lower < PAGE_LEN
                    invariant
                        self.wf(),
                        upper < MAX_PAGE_COUNT,
                        lower <= PAGE_LEN,
                        page == self.index@[upper as int],
                        page != NO_PAGE,
                        forall|i: int, j: int|
                            0 <= i < j < keys@.len() ==> #[trigger] keys@[i] < #[trigger] keys@[j],
                        forall|i: int|
                            0 <= i < keys@.len() ==> (#[trigger] keys@[i]) % 4 == 0
                                && self@.contains_key(slot(keys@[i])) && slot(keys@[i]) < upper
                                * PAGE_LEN + lower,
                        forall|w: int| #[trigger]
                            self@.contains_key(w) && w < upper * PAGE_LEN + lower ==> exists|
                                i: int,
                            |
                                0 <= i < keys@.len() && #[trigger] keys@[i] == w * 4,
                    decreases PAGE_LEN - lower,
                {
                    let ghost before = keys@;
                    let ghost word = upper * PAGE_LEN + lower;
                    proof {
                        assert(self.cell(word) == self.page_table@[page as int].0@[lower as int]);
                    }
                    if self.page_table[page as usize].0[lower].is_some() {
                        keys.push(Self::decompress_addr(upper * PAGE_LEN + lower));
                        proof {
                            assert(keys@[before.len() as int] == word * 4);
                        }
                    }
                    proof {
                        assert forall|w: int| #[trigger]
                            self@.contains_key(w) && w < upper * PAGE_LEN + lower + 1 implies exists|
                            i: int,
                        |
                            0 <= i < keys@.len() && #[trigger] keys@[i] == w * 4 by {
                            if w < word {
                                let i = choose|i: int|
                                    0 <= i < before.len() && #[trigger] before[i] == w * 4;
                                assert(keys@[i] == w * 4);
                            } else {
                                assert(keys@[before.len() as int] == w * 4);
                            }
                        }
                    }
                    lower = lower + 1;
                }
            } else {
                proof {
                    assert forall|w: int| #[trigger]
                        self@.contains_key(w) && w < (upper + 1) * PAGE_LEN implies w < upper
                        * PAGE_LEN by {
                        if w >= upper * PAGE_LEN {
                            assert(w / (PAGE_LEN as int) == upper);
                        }
                    }
                }
            }
            upper = upper + 1;
        }
        keys
    }

    /// The number of occupied addresses.
    pub fn exact_len(&self) -> (r: usize)
        requires
            self.wf(),
        ensures
            r == self@.dom().len(),
    {
        let keys = self.keys();
        proof {
            lemma_key_count(keys@, self@);
        }
        keys.len()
    }

    /// An estimate of the number of occupied addresses: every touched page counts in full.
    pub fn estimate_len(&self) -> (r: usize)
        requires
            self.wf(),
        ensures
            r == pages_used(self.index@, MAX_PAGE_COUNT as int) * PAGE_LEN,
    {
        let mut count: usize = 0;
        let mut i: usize = 0;
        while i < MAX_PAGE_COUNT
            invariant
                self.wf(),
                i <= MAX_PAGE_COUNT,
                count == pages_used(self.index@, i as int),
                count <= i,
            decreases MAX_PAGE_COUNT - i,
        {
            if self.index[i] != NO_PAGE {
                count = count + 1;
            }
            i = i + 1;
        }
        count * PAGE_LEN
    }

    /// Drops every page.
    pub fn clear(&mut self)
        requires
            old(self).wf(),
        ensures
            final(self).wf(),
            final(self).pageless(),
            final(self)@ == Map::<int, V>::empty(),
    {
        let empty = Self::new_preallocated();
        *self = empty;
    }

    /// Collects pairs of address and value, later ones overwriting earlier ones.
    pub fn from_iter(items: Vec<(u32, V)>) -> (r: Self)
        requires
            forall|i: int| 0 <= i < items@.len() ==> addressable((#[trigger] items@[i]).0),
        ensures
            r.wf(),
            r@ == collected(items@, items@.len() as int),
    {
        let mut memory = Self::new_preallocated();
        let mut i: usize = 0;
        while i < items.len()
            invariant
                i <= items@.len(),
                memory.wf(),
                memory@ == collected(items@, i as int),
                forall|i: int| 0 <= i < items@.len() ==> addressable((#[trigger] items@[i]).0),
            decreases items@.len() - i,
        {
            let (addr, value) = items[i];
            memory.insert(addr, value);
            i = i + 1;
        }
        memory
    }

    /// The occupied addresses with their values, in increasing order of address.
    pub fn into_iter(self) -> (r: Vec<(u32, V)>)
        requires
            self.wf(),
        ensures
            lists_keys(r@.map_values(|kv: (u32, V)| kv.0), self@),
            forall|i: int|
                0 <= i < r@.len() ==> self@[slot((#[trigger] r@[i]).0)] == r@[i].1,
    {
        let keys = self.keys();
        let mut items: Vec<(u32, V)> = Vec::new();
        let mut i: usize = 0;
        while i < keys.len()
            invariant
                self.wf(),
                i <= keys@.len(),
                lists_keys(keys@, self@),
                items@.len() == i,
                forall|j: int|
                    0 <= j < i ==> (#[trigger] items@[j]).0 == keys@[j] && self@[slot(
                        items@[j].0,
                    )] == items@[j].1,
            decreases keys@.len() - i,
        {
            let addr: u32 = keys[i];
            proof {
                assert(self@.contains_key(slot(addr)));
            }
            match self.get(addr) {
                Some(value) => {
                    items.push((addr, *value));
                },
                None => {},
            }
            i = i + 1;
        }
        proof {
            assert(items@.map_values(|kv: (u32, V)| kv.0) =~= keys@);
        }
        items
    }
}

impl<V: Copy> Default for PagedMemory<V> {
    /// The empty memory.
    fn default() -> (r: Self)
        ensures
            r.wf(),
            r.pageless(),
            r@ == Map::<int, V>::empty(),
    {
        Self::new_preallocated()
    }
}

/// Reading back a written word gives the written value, and no other word changes.
pub proof fn read_after_write<V>(m: Map<int, V>, a: u32, b: u32, value: V)
    ensures
        lookup(m.insert(slot(a), value), slot(a)) == Some(value),
        slot(a) != slot(b) ==> lookup(m.insert(slot(a), value), slot(b)) == lookup(m, slot(b)),
        lookup(m.remove(slot(a)), slot(a)) == None::<V>,
        slot(a) != slot(b) ==> lookup(m.remove(slot(a)), slot(b)) == lookup(m, slot(b)),
{
}

/// Addresses of one word share their content: the two low bits are ignored.
pub proof fn bytes_of_a_word_share_a_slot(addr: u32, i: u32)
    requires
        addr % 4 == 0,
        i < 4,
        addr + i <= u32::MAX,
    ensures
        slot((addr + i) as u32) == slot(addr),
{
}

/// The register file, with registers that may be unset.
#[derive(Debug, Clone)]
pub struct Registers<T: Copy> {
    pub registers: Vec<Option<T>>,
}

impl<T: Copy> Default for Registers<T> {
    /// Every register unset.
    fn default() -> (r: Self)
        ensures
            r.wf(),
            forall|i: int| 0 <= i < NUM_REGISTERS ==> (#[trigger] r.registers@[i]) is None,
    {
        Registers { registers: absent_words(NUM_REGISTERS) }
    }
}

impl<T: Copy> Registers<T> {
    /// One slot for every register.
    pub open spec fn wf(&self) -> bool {
        self.registers@.len() == NUM_REGISTERS
    }

    /// Get an entry for the given register.
    pub fn entry(&mut self, addr: u32) -> (r: Entry<'_, T>)
        requires
            old(self).wf(),
            addr < NUM_REGISTERS,
        ensures
            final(self).wf(),
            r.wf(),
            r.content() == old(self).registers@[addr as int],
            final(self).registers@ == old(self).registers@.update(addr as int, (match r {
                Entry::Vacant(e) => *final(e.entry),
                Entry::Occupied(e) => *final(e.entry),
            })),
    {
        let entry = &mut self.registers[addr as usize];
        if entry.is_some() {
            Entry::Occupied(OccupiedEntry { entry })
        } else {
            Entry::Vacant(VacantEntry { entry })
        }
    }

    /// Set a register, returning its previous value.
    pub fn insert(&mut self, addr: u32, value: T) -> (r: Option<T>)
        requires
            old(self).wf(),
            addr < NUM_REGISTERS,
        ensures
            final(self).wf(),
            r == old(self).registers@[addr as int],
            final(self).registers@ == old(self).registers@.update(addr as int, Some(value)),
    {
        let previous: Option<T> = self.registers[addr as usize];
        self.registers.set(addr as usize, Some(value));
        previous
    }

    /// Unset a register, returning its previous value.
    pub fn remove(&mut self, addr: u32) -> (r: Option<T>)
        requires
            old(self).wf(),
            addr < NUM_REGISTERS,
        ensures
            final(self).wf(),
            r == old(self).registers@[addr as int],
            final(self).registers@ == old(self).registers@.update(addr as int, None),
    {
        let previous: Option<T> = self.registers[addr as usize];
        self.registers.set(addr as usize, None);
        previous
    }

    /// The value of a register, if it is set.
    pub fn get(&self, addr: u32) -> (r: Option<&T>)
        requires
            self.wf(),
            addr < NUM_REGISTERS,
        ensures
            match r {
                Some(v) => self.registers@[addr as int] == Some(*v),
                None => self.registers@[addr as int] is None,
            },
    {
        self.registers[addr as usize].as_ref()
    }

    /// Unset every register.
    pub fn clear(&mut self)
        requires
            old(self).wf(),
        ensures
            final(self).wf(),
            forall|i: int| 0 <= i < NUM_REGISTERS ==> (#[trigger] final(self).registers@[i]) is None,
    {
        let empty: Self = Self::default();
        *self = empty;
    }

    /// The contents after setting registers in order from a list of pairs.
    pub open spec fn filled(items: Seq<(u32, T)>, n: int) -> Seq<Option<T>>
        decreases n,
    {
        if n <= 0 {
            Seq::new(NUM_REGISTERS as nat, |i: int| None)
        } else {
            Self::filled(items, n - 1).update(items[n - 1].0 as int, Some(items[n - 1].1))
        }
    }

    /// Collects pairs of register number and value, later ones overwriting earlier ones.
    pub fn from_iter(items: Vec<(u32, T)>) -> (r: Self)
        requires
            forall|i: int| 0 <= i < items@.len() ==> (#[trigger] items@[i]).0 < NUM_REGISTERS,
        ensures
            r.wf(),
            r.registers@ == Self::filled(items@, items@.len() as int),
    {
        let mut registers: Self = Self::default();
        proof {
            assert(registers.registers@ =~= Self::filled(items@, 0));
        }
        let mut i: usize = 0;
        while i < items.len()
            invariant
                i <= items@.len(),
                registers.wf(),
                registers.registers@ == Self::filled(items@, i as int),
                forall|i: int| 0 <= i < items@.len() ==> (#[trigger] items@[i]).0 < NUM_REGISTERS,
            decreases items@.len() - i,
        {
            let (addr, value) = items[i];
            registers.insert(addr, value);
            i = i + 1;
        }
        registers
    }

    /// The registers that are set among the first `n`, with their values.
    pub open spec fn listed(registers: Seq<Option<T>>, n: int) -> Seq<(u32, T)>
        decreases n,
    {
        if n <= 0 {
            Seq::empty()
        } else {
            match registers[n - 1] {
                Some(v) => Self::listed(registers, n - 1).push(((n - 1) as u32, v)),
                None => Self::listed(registers, n - 1),
            }
        }
    }

    /// The registers that are set, with their values, in increasing order.
    pub fn into_iter(self) -> (r: Vec<(u32, T)>)
        requires
            self.wf(),
        ensures
            r@ == Self::listed(self.registers@, NUM_REGISTERS as int),
    {
        let mut items: Vec<(u32, T)> = Vec::new();
        let mut i: usize = 0;
        while i < NUM_REGISTERS
            invariant
                self.wf(),
                i <= NUM_REGISTERS,
                items@ == Self::listed(self.registers@, i as int),
            decreases NUM_REGISTERS - i,
        {
            match self.registers[i] {
                Some(v) => {
                    items.push((i as u32, v));
                },
                None => {},
            }
            i = i + 1;
        }
        items
    }
}

/// Registers and paged memory behind one address space: addresses below the register count are
/// registers, the others words of memory.
#[derive(Debug, Clone)]
pub struct Memory<T: Copy> {
    /// The registers.
    pub registers: Registers<T>,
    /// The page table.
    pub page_table: PagedMemory<T>,
}

impl<T: Copy> Default for Memory<T> {
    /// The empty memory.
    fn default() -> (r: Self)
        ensures
            r.wf(),
            r.blank(),
            forall|addr: u32| addressable(addr) ==> (#[trigger] r.at(addr)) is None,
    {
        Self::new_preallocated()
    }
}

impl<T: Copy> Memory<T> {
    /// Both parts are well formed.
    pub open spec fn wf(&self) -> bool {
        self.registers.wf() && self.page_table.wf()
    }

    /// The value at an address, if any.
    pub open spec fn at(&self, addr: u32) -> Option<T> {
        if addr < NUM_REGISTERS {
            self.registers.registers@[addr as int]
        } else {
            lookup(self.page_table@, slot(addr))
        }
    }

    /// Whether two addresses name the same place.
    pub open spec fn same_place(a: u32, b: u32) -> bool {
        if a < NUM_REGISTERS || b < NUM_REGISTERS {
            a == b
        } else {
            slot(a) == slot(b)
        }
    }

    /// No register is set and no page is present.
    pub open spec fn blank(&self) -> bool {
        &&& forall|i: int|
            0 <= i < NUM_REGISTERS ==> (#[trigger] self.registers.registers@[i]) is None
        &&& self.page_table@ == Map::<int, T>::empty()
        &&& self.page_table.pageless()
    }

    /// One place holds what is given, the others what they held in another memory. Words under the
    /// numbers of registers stay as they are.
    pub open spec fn assigns(&self, before: &Self, addr: u32, value: Option<T>) -> bool {
        if addr < NUM_REGISTERS {
            &&& self.registers.registers@ == before.registers.registers@.update(addr as int, value)
            &&& self.page_table@ == before.page_table@
            &&& self.page_table.same_pages(&before.page_table)
        } else {
            &&& self.registers.registers@ == before.registers.registers@
            &&& self.page_table@ == assigned(before.page_table@, slot(addr), value)
        }
    }

    /// Create an empty memory.
    pub fn new_preallocated() -> (r: Self)
        ensures
            r.wf(),
            r.blank(),
            forall|addr: u32| addressable(addr) ==> (#[trigger] r.at(addr)) is None,
    {
        Memory { registers: Registers::default(), page_table: PagedMemory::new_preallocated() }
    }

    /// Get an entry for the given address.
    pub fn entry(&mut self, addr: u32) -> (r: Entry<'_, T>)
        requires
            old(self).wf(),
            addressable(addr),
        ensures
            final(self).wf(),
            r.wf(),
            r.content() == old(self).at(addr),
            final(self).assigns(old(self), addr, (match r {
                Entry::Vacant(e) => *final(e.entry),
                Entry::Occupied(e) => *final(e.entry),
            })),
            addr >= NUM_REGISTERS ==> final(self).page_table.touches(&old(self).page_table, addr),
            forall|b: u32|
                addressable(b) ==> #[trigger] final(self).at(b) == if Self::same_place(addr, b) {
                    match r {
                        Entry::Vacant(e) => *final(e.entry),
                        Entry::Occupied(e) => *final(e.entry),
                    }
                } else {
                    old(self).at(b)
                },
    {
        if addr < NUM_REGISTERS as u32 {
            self.registers.entry(addr)
        } else {
            self.page_table.entry(addr)
        }
    }

    /// Insert a value, returning the previous one.
    pub fn insert(&mut self, addr: u32, value: T) -> (r: Option<T>)
        requires
            old(self).wf(),
            addressable(addr),
        ensures
            final(self).wf(),
            r == old(self).at(addr),
            final(self).assigns(old(self), addr, Some(value)),
            addr >= NUM_REGISTERS ==> final(self).page_table.touches(&old(self).page_table, addr),
            forall|b: u32|
                addressable(b) ==> #[trigger] final(self).at(b) == if Self::same_place(addr, b) {
                    Some(value)
                } else {
                    old(self).at(b)
                },
    {
        if addr < NUM_REGISTERS as u32 {
            self.registers.insert(addr, value)
        } else {
            self.page_table.insert(addr, value)
        }
    }

    /// The value at an address, if it is present.
    pub fn get(&self, addr: u32) -> (r: Option<&T>)
        requires
            self.wf(),
            addressable(addr),
        ensures
            match r {
                Some(v) => self.at(addr) == Some(*v),
                None => self.at(addr) is None,
            },
    {
        if addr < NUM_REGISTERS as u32 {
            self.registers.get(addr)
        } else {
            self.page_table.get(addr)
        }
    }

    /// Remove a value, returning it if it exists.
    pub fn remove(&mut self, addr: u32) -> (r: Option<T>)
        requires
            old(self).wf(),
            addressable(addr),
        ensures
            final(self).wf(),
            r == old(self).at(addr),
            final(self).assigns(old(self), addr, None),
            final(self).page_table.same_pages(&old(self).page_table),
            forall|b: u32|
                addressable(b) ==> #[trigger] final(self).at(b) == if Self::same_place(addr, b) {
                    None
                } else {
                    old(self).at(b)
                },
    {
        if addr < NUM_REGISTERS as u32 {
            self.registers.remove(addr)
        } else {
            self.page_table.remove(addr)
        }
    }

    /// Drop every value.
    pub fn clear(&mut self)
        requires
            old(self).wf(),
        ensures
            final(self).wf(),
            final(self).blank(),
            forall|addr: u32| addressable(addr) ==> (#[trigger] final(self).at(addr)) is None,
    {
        self.registers.clear();
        self.page_table.clear();
    }

    /// What filling an empty memory from a list of pairs leaves at an address: the last pair
    /// that names the same place wins.
    pub open spec fn last_write(items: Seq<(u32, T)>, n: int, addr: u32) -> Option<T>
        decreases n,
    {
        if n <= 0 {
            None
        } else if Self::same_place(items[n - 1].0, addr) {
            Some(items[n - 1].1)
        } else {
            Self::last_write(items, n - 1, addr)
        }
    }

    /// Collects pairs of address and value, later ones overwriting earlier ones.
    pub fn from_iter(items: Vec<(u32, T)>) -> (r: Self)
        requires
            forall|i: int| 0 <= i < items@.len() ==> addressable((#[trigger] items@[i]).0),
        ensures
            r.wf(),
            forall|addr: u32|
                addressable(addr) ==> #[trigger] r.at(addr) == Self::last_write(
                    items@,
                    items@.len() as int,
                    addr,
                ),
    {
        let mut memory: Self = Self::new_preallocated();
        let mut i: usize = 0;
        while i < items.len()
            invariant
                i <= items@.len(),
                memory.wf(),
                forall|addr: u32|
                    addressable(addr) ==> #[trigger] memory.at(addr) == Self::last_write(
                        items@,
                        i as int,
                        addr,
                    ),
                forall|i: int| 0 <= i < items@.len() ==> addressable((#[trigger] items@[i]).0),
            decreases items@.len() - i,
        {
            let (addr, value) = items[i];
            memory.insert(addr, value);
            i = i + 1;
        }
        memory
    }

    /// The registers that are set, then the words of memory, with their values.
    pub fn into_iter(self) -> (r: Vec<(u32, T)>)
        requires
            self.wf(),
        ensures
            ({
                let regs = Registers::listed(self.registers.registers@, NUM_REGISTERS as int);
                let words = r@.skip(regs.len() as int);
                &&& regs.len() <= r@.len()
                &&& r@.take(regs.len() as int) == regs
                &&& lists_keys(words.map_values(|kv: (u32, T)| kv.0), self.page_table@)
                &&& forall|i: int|
                    0 <= i < words.len() ==> self.page_table@[slot((#[trigger] words[i]).0)]
                        == words[i].1
            }),
    {
        let ghost table = self.page_table@;
        let mut items: Vec<(u32, T)> = self.registers.into_iter();
        let ghost regs = items@;
        let mut words: Vec<(u32, T)> = self.page_table.into_iter();
        let ghost listed = words@;
        items.append(&mut words);
        proof {
            assert(items@.skip(regs.len() as int) =~= listed);
            assert(items@.take(regs.len() as int) =~= regs);
        }
        items
    }
}

/// The words of a memory that may be forked: those that reads see, and those at the fork.
#[verifier::ext_equal]
pub struct CowModel<V> {
    pub seen: Map<int, V>,
    pub saved: Option<Map<int, V>>,
}

impl<V> CowModel<V> {
    /// Fork, unless already forked.
    pub open spec fn forked(self) -> Self {
        match self.saved {
            Some(_) => self,
            None => CowModel { seen: self.seen, saved: Some(self.seen) },
        }
    }

    /// Bind or unbind one word.
    pub open spec fn written(self, k: int, v: Option<V>) -> Self {
        CowModel { seen: assigned(self.seen, k, v), saved: self.saved }
    }

    /// Bind or unbind the words of a list in order.
    pub open spec fn written_all(self, writes: Seq<(int, Option<V>)>) -> Self
        decreases writes.len(),
    {
        if writes.len() == 0 {
            self
        } else {
            self.written_all(writes.drop_last()).written(writes.last().0, writes.last().1)
        }
    }

    /// Roll back to the fork, if forked.
    pub open spec fn discarded(self) -> Self {
        match self.saved {
            Some(m) => CowModel { seen: m, saved: None },
            None => self,
        }
    }
}

/// Whatever is written after a fork, rolling back restores the memory of before the fork, words
/// that did not exist then vanishing again.
pub proof fn discard_restores_the_fork<V>(m: CowModel<V>, writes: Seq<(int, Option<V>)>)
    requires
        m.saved is None,
    ensures
        m.forked().written_all(writes).discarded() == m,
{
    lemma_writes_keep_the_fork(m.forked(), writes);
}

proof fn lemma_writes_keep_the_fork<V>(m: CowModel<V>, writes: Seq<(int, Option<V>)>)
    ensures
        m.written_all(writes).saved == m.saved,
    decreases writes.len(),
{
    if writes.len() > 0 {
        lemma_writes_keep_the_fork(m, writes.drop_last());
    }
}

/// Forking a forked memory changes nothing: the fork point stays where it was.
pub proof fn nested_fork_is_a_no_op<V>(m: CowModel<V>, writes: Seq<(int, Option<V>)>)
    ensures
        m.forked().written_all(writes).forked() == m.forked().written_all(writes),
{
    lemma_writes_keep_the_fork(m.forked(), writes);
}

/// Reads and writes see the same words whether or not the memory is forked.
pub proof fn forking_is_invisible_to_reads<V>(m: CowModel<V>, writes: Seq<(int, Option<V>)>)
    ensures
        m.forked().written_all(writes).seen == m.written_all(writes).seen,
    decreases writes.len(),
{
    if writes.len() > 0 {
        forking_is_invisible_to_reads(m, writes.drop_last());
    }
}

/// A paged memory that can be forked in constant time and rolled back in constant time.
///
/// Forking keeps the current memory as `original` and starts an empty overlay `copy`. Writes go
/// to the overlay, reads look at the overlay first. Rolling back drops the overlay.
pub enum MaybeCowMemory<V: Copy> {
    Owned(PagedMemory<V>),
    Cow { copy: PagedMemory<V>, original: PagedMemory<V> },
}

impl<V: Copy> Default for MaybeCowMemory<V> {
    /// The empty memory, not forked.
    fn default() -> (r: Self)
        ensures
            r.wf(),
            r@ == Map::<int, V>::empty(),
            r.saved() is None,
    {
        MaybeCowMemory::Owned(PagedMemory::default())
    }
}

impl<V: Copy> View for MaybeCowMemory<V> {
    type V = Map<int, V>;

    /// The words that reads see.
    open spec fn view(&self) -> Map<int, V> {
        match self {
            MaybeCowMemory::Owned(memory) => memory@,
            MaybeCowMemory::Cow { copy, original } => original@.union_prefer_right(copy@),
        }
    }
}

impl<V: Copy> MaybeCowMemory<V> {
    /// Both parts are well formed.
    pub open spec fn wf(&self) -> bool {
        match self {
            MaybeCowMemory::Owned(memory) => memory.wf(),
            MaybeCowMemory::Cow { copy, original } => copy.wf() && original.wf(),
        }
    }

    /// The words at the fork, if the memory is forked.
    pub open spec fn saved(&self) -> Option<Map<int, V>> {
        match self {
            MaybeCowMemory::Owned(_) => None,
            MaybeCowMemory::Cow { copy, original } => Some(original@),
        }
    }

    /// The words that reads see, and those at the fork.
    pub open spec fn model(&self) -> CowModel<V> {
        CowModel { seen: self@, saved: self.saved() }
    }

    /// The word at the given address, if it is present.
    pub fn get(&self, addr: u32) -> (r: Option<&V>)
        requires
            self.wf(),
            addressable(addr),
        ensures
            match r {
                Some(v) => self@.contains_key(slot(addr)) && *v == self@[slot(addr)],
                None => !self@.contains_key(slot(addr)),
            },
    {
        match self {
            MaybeCowMemory::Owned(memory) => memory.get(addr),
            MaybeCowMemory::Cow { copy, original } => {
                match copy.get(addr) {
                    Some(v) => Some(v),
                    None => original.get(addr),
                }
            },
        }
    }

    /// The entry of the given address. When forked, the word is first duplicated into the
    /// overlay, so that the entry behaves as that of a plain memory; only removing the word from
    /// the overlay uncovers the one at the fork.
    pub fn entry(&mut self, addr: u32) -> (r: Entry<'_, V>)
        requires
            old(self).wf(),
            addressable(addr),
        ensures
            final(self).wf(),
            r.wf(),
            r.content() == lookup(old(self)@, slot(addr)),
            final(self).model() == old(self).model().written(
                slot(addr),
                match (
                    (match r {
                Entry::Vacant(e) => *final(e.entry),
                Entry::Occupied(e) => *final(e.entry),
            }),
                    old(self).saved(),
                ) {
                    (None, Some(saved)) => lookup(saved, slot(addr)),
                    (left, _) => left,
                },
            ),
    {
        match self {
            MaybeCowMemory::Owned(memory) => memory.entry(addr),
            MaybeCowMemory::Cow { copy, original } => {
                if copy.get(addr).is_none() {
                    if let Some(value) = original.get(addr) {
                        copy.insert(addr, *value);
                    }
                }
                copy.entry(addr)
            },
        }
    }

    /// The occupied addresses, in increasing order. Only for a memory that is not forked.
    pub fn keys(&self) -> (r: Vec<u32>)
        requires
            self.wf(),
            self.saved() is None,
        ensures
            lists_keys(r@, self@),
    {
        match self {
            MaybeCowMemory::Owned(memory) => memory.keys(),
            MaybeCowMemory::Cow { copy, .. } => copy.keys(),
        }
    }

    /// Forks the memory. A no-op if it is already forked.
    pub fn copy_on_write(&mut self)
        requires
            old(self).wf(),
        ensures
            final(self).wf(),
            final(self).model() == old(self).model().forked(),
    {
        let mut taken: Self = MaybeCowMemory::default();
        std::mem::swap(&mut taken, self);
        match taken {
            MaybeCowMemory::Owned(memory) => {
                proof {
                    assert(memory@.union_prefer_right(Map::<int, V>::empty()) =~= memory@);
                }
                *self = MaybeCowMemory::Cow { copy: PagedMemory::default(), original: memory };
            },
            MaybeCowMemory::Cow { copy, original } => {
                *self = MaybeCowMemory::Cow { copy, original };
            },
        }
    }

    /// Drops everything written since the fork. A no-op if the memory is not forked.
    pub fn discard_cow(&mut self)
        requires
            old(self).wf(),
        ensures
            final(self).wf(),
            final(self).model() == old(self).model().discarded(),
    {
        let mut taken: Self = MaybeCowMemory::default();
        std::mem::swap(&mut taken, self);
        match taken {
            MaybeCowMemory::Owned(memory) => {
                *self = MaybeCowMemory::Owned(memory);
            },
            MaybeCowMemory::Cow { copy: _, original } => {
                *self = MaybeCowMemory::Owned(original);
            },
        }
    }
}

/// A longer index has the same count on a common prefix.
proof fn lemma_pages_used_prefix(a: Seq<u16>, b: Seq<u16>, n: int)
    requires
        0 <= n <= a.len() <= b.len(),
        forall|i: int| 0 <= i < n ==> a[i] == b[i],
    ensures
        pages_used(a, n) == pages_used(b, n),
    decreases n,
{
    if n > 0 {
        lemma_pages_used_prefix(a, b, n - 1);
    }
}

/// Writing one word of one page changes that word and no other.
proof fn lemma_cell_update<V: Copy>(
    was: PagedMemory<V>,
    now: PagedMemory<V>,
    upper: int,
    lower: int,
    value: Option<V>,
)
    requires
        was.wf(),
        0 <= upper < MAX_PAGE_COUNT,
        0 <= lower < PAGE_LEN,
        was.index@[upper] != NO_PAGE,
        now.index@ == was.index@,
        now.page_table@.len() == was.page_table@.len(),
        forall|p: int|
            0 <= p < was.page_table@.len() && p != was.index@[upper] ==> (
            #[trigger] now.page_table@[p]) == was.page_table@[p],
        now.page_table@[was.index@[upper] as int].0@ == was.page_table@[was.index@[upper] as int].0@.update(
            lower,
            value,
        ),
    ensures
        now.wf(),
        forall|w: int|
            0 <= w < MAX_WORDS ==> #[trigger] now.cell(w) == if w == upper * PAGE_LEN + lower {
                value
            } else {
                was.cell(w)
            },
{
    assert forall|w: int| 0 <= w < MAX_WORDS implies #[trigger] now.cell(w) == (if w == upper
        * PAGE_LEN + lower {
        value
    } else {
        was.cell(w)
    }) by {
        let u = w / (PAGE_LEN as int);
        assert(0 <= u < MAX_PAGE_COUNT);
        assert(was.index@[u] == NO_PAGE || was.index@[u] < was.page_table@.len());
    }
    assert(was.index@[upper] < was.page_table@.len());
}

/// An entry of a memory, for in-place manipulation.
pub enum Entry<'a, V: Copy> {
    Vacant(VacantEntry<'a, V>),
    Occupied(OccupiedEntry<'a, V>),
}

/// A vacant entry, for in-place manipulation.
pub struct VacantEntry<'a, V: Copy> {
    pub entry: &'a mut Option<V>,
}

/// An occupied entry, for in-place manipulation.
pub struct OccupiedEntry<'a, V> {
    pub entry: &'a mut Option<V>,
}

impl<'a, V: Copy> Entry<'a, V> {
    /// The slot of a vacant entry is empty, that of an occupied one is not.
    pub open spec fn wf(self) -> bool {
        match self {
            Entry::Vacant(e) => *e.entry is None,
            Entry::Occupied(e) => e.wf(),
        }
    }

    /// The value in the entry, if any.
    pub open spec fn content(self) -> Option<V> {
        match self {
            Entry::Vacant(e) => *e.entry,
            Entry::Occupied(e) => *e.entry,
        }
    }

    /// Ensures a value is in the entry, inserting the provided value if necessary.
    /// Returns a mutable reference to the value.
    pub fn or_insert(self, default: V) -> (r: &'a mut V)
        requires
            self.wf(),
        ensures
            *r == (match self.content() {
                Some(v) => v,
                None => default,
            }),
            (match self {
                Entry::Vacant(e) => *final(e.entry),
                Entry::Occupied(e) => *final(e.entry),
            }) == Some(*final(r)),
    {
        match self {
            Entry::Vacant(entry) => entry.insert(default),
            Entry::Occupied(entry) => entry.into_mut(),
        }
    }

    /// Ensures a value is in the entry, computing a value if necessary.
    /// Returns a mutable reference to the value.
    pub fn or_insert_with<F: FnOnce() -> V>(self, default: F) -> (r: &'a mut V)
        requires
            self.wf(),
            self.content() is None ==> default.requires(()),
        ensures
            self.content() matches Some(v) ==> *r == v,
            self.content() is None ==> default.ensures((), *r),
            (match self {
                Entry::Vacant(e) => *final(e.entry),
                Entry::Occupied(e) => *final(e.entry),
            }) == Some(*final(r)),
    {
        match self {
            Entry::Vacant(entry) => entry.insert(default()),
            Entry::Occupied(entry) => entry.into_mut(),
        }
    }

    /// Provides in-place mutable access to an occupied entry before any potential inserts.
    pub fn and_modify<F: FnOnce(&mut V)>(self, f: F) -> (r: Self)
        requires
            self.wf(),
            self.content() matches Some(v) ==> forall|m: &mut V| *m == v ==> f.requires((m,)),
        ensures
            r.wf(),
            (match self {
                Entry::Vacant(e) => *final(e.entry),
                Entry::Occupied(e) => *final(e.entry),
            }) == (match r {
                Entry::Vacant(e) => *final(e.entry),
                Entry::Occupied(e) => *final(e.entry),
            }),
            match (self, r) {
                (Entry::Vacant(e), Entry::Vacant(g)) => *g.entry == *e.entry,
                (Entry::Occupied(e), Entry::Occupied(g)) => exists|m: &mut V| #[trigger]
                    f.ensures((m,), ()) && *m == e.value() && *final(m) == g.value(),
                _ => false,
            },
    {
        let mut entry = self;
        match &mut entry {
            Entry::Vacant(_) => {},
            Entry::Occupied(occupied) => f(occupied.get_mut()),
        }
        entry
    }
}

impl<'a, V: Copy> VacantEntry<'a, V> {
    /// Insert a value into the entry, returning a mutable reference to it.
    pub fn insert(self, value: V) -> (r: &'a mut V)
        ensures
            *r == value,
            *final(self.entry) == Some(*final(r)),
    {
        self.entry.insert(value)
    }
}

impl<'a, V: Copy> OccupiedEntry<'a, V> {
    /// The slot holds a value.
    pub open spec fn wf(self) -> bool {
        *self.entry is Some
    }

    /// The value in the entry.
    pub open spec fn value(self) -> V {
        self.entry->Some_0
    }

    /// Get a reference to the value in the entry.
    pub fn get(&self) -> (r: &V)
        requires
            self.wf(),
        ensures
            *r == self.value(),
    {
        self.entry.as_ref().unwrap()
    }

    /// Get a mutable reference to the value in the entry.
    pub fn get_mut(&mut self) -> (r: &mut V)
        requires
            old(self).wf(),
        ensures
            *r == old(self).value(),
            *final(self).entry == Some(*final(r)),
            *final(final(self).entry) == *final(old(self).entry),
    {
        self.entry.as_mut().unwrap()
    }

    /// Replace the value in the entry, returning the previous value.
    pub fn insert(&mut self, value: V) -> (r: V)
        requires
            old(self).wf(),
        ensures
            r == old(self).value(),
            *final(self).entry == Some(value),
            *final(final(self).entry) == *final(old(self).entry),
    {
        let previous: V = *self.get();
        *self.entry = Some(value);
        previous
    }

    /// Converts the entry into a mutable reference to the value.
    pub fn into_mut(self) -> (r: &'a mut V)
        requires
            self.wf(),
        ensures
            *r == self.value(),
            *final(self.entry) == Some(*final(r)),
    {
        self.entry.as_mut().unwrap()
    }

    /// Removes the value from the entry and returns it.
    pub fn remove(self) -> (r: V)
        requires
            self.wf(),
        ensures
            r == self.value(),
            *final(self.entry) is None,
    {
        let previous: V = *self.get();
        *self.entry = None;
        previous
    }
}

} // verus!
