//! A paged bitmap over 32 bit identifiers.

use vstd::prelude::*;

use crate::text::decimal_text;

verus! {

/// Number of words per page; a page covers 65,536 identifiers.
pub const ID_BITMAP_PAGE_WORDS: usize = 1024;

/// Number of [`IdBitmap::clear`] cycles for which an unused page is kept.
pub const ID_BITMAP_PAGE_EVICTION_THRESHOLD: u64 = 16;

/// Bit `k` of a word, counted from the least significant.
pub open spec fn word_bit(word: u64, k: u64) -> bool {
    (word >> k) & 1u64 == 1u64
}

struct IdBitmapPage {
    words: [u64; 1024],
    last_used_generation: u64,
}

impl IdBitmapPage {
    fn new(generation: u64) -> (page: Self)
        ensures
            page.last_used_generation == generation,
            forall|i: int| 0 <= i < 1024 ==> #[trigger] page.words@[i] == 0u64,
    {
        IdBitmapPage { words: [0u64; 1024], last_used_generation: generation }
    }
}

/// A set of identifiers, kept as pages of bits that are allocated when first written.
///
/// The allocation is meant to be reused: [`IdBitmap::clear`] empties the set and keeps the pages
/// that were written within the last [`ID_BITMAP_PAGE_EVICTION_THRESHOLD`] generations.
pub struct IdBitmap {
    pages: Vec<Option<Box<IdBitmapPage>>>,
    generation: u64,
}

impl IdBitmap {
    #[verifier::type_invariant]
    spec fn inv(self) -> bool {
        &&& self.pages@.len() <= 65536
        &&& forall|i: int|
            0 <= i < self.pages@.len() ==> (#[trigger] self.pages@[i] matches Some(page)
                ==> page.last_used_generation <= self.generation)
    }

    spec fn word(pages: Seq<Option<Box<IdBitmapPage>>>, index: int) -> u64 {
        let page = index / 1024;
        if 0 <= page < pages.len() && pages[page] is Some {
            pages[page]->0.words@[index % 1024]
        } else {
            0u64
        }
    }

    spec fn has(pages: Seq<Option<Box<IdBitmapPage>>>, id: u32) -> bool {
        word_bit(Self::word(pages, id as int / 64), (id % 64) as u64)
    }

    /// The identifiers in the bitmap.
    pub closed spec fn view(&self) -> Set<u32> {
        Set::new(|id: u32| Self::has(self.pages@, id))
    }

    /// The number of times that the bitmap was cleared.
    pub closed spec fn generation(&self) -> u64 {
        self.generation
    }

    /// The generation in which page `index` was last written, if that page is allocated.
    pub closed spec fn page_last_used(&self, index: int) -> Option<u64> {
        if 0 <= index < self.pages@.len() && self.pages@[index] is Some {
            Some(self.pages@[index]->0.last_used_generation)
        } else {
            None
        }
    }

    /// The number of slots for pages, with a page or without.
    pub closed spec fn page_slots(&self) -> nat {
        self.pages@.len()
    }

    /// The number of pages that are allocated in the first `n` slots.
    pub open spec fn allocated_pages(&self, n: int) -> nat
        decreases n,
    {
        if n <= 0 {
            0
        } else {
            self.allocated_pages(n - 1) + (if self.page_last_used(n - 1) is Some {
                1nat
            } else {
                0nat
            })
        }
    }

    /// An empty bitmap.
    pub fn new() -> (bitmap: Self)
        ensures
            bitmap@ == Set::<u32>::empty(),
            bitmap.generation() == 0,
            bitmap.page_slots() == 0,
            forall|i: int| bitmap.page_last_used(i) is None,
    {
        let bitmap = IdBitmap { pages: Vec::new(), generation: 0 };
        proof {
            assert forall|id: u32| !bitmap@.contains(id) by {
                let k: u64 = (id % 64) as u64;
                assert(k < 64 ==> (0u64 >> k) & 1u64 != 1u64) by (bit_vector);
            }
            assert(bitmap@ =~= Set::<u32>::empty());
        }
        bitmap
    }

    /// Whether the bitmap holds `id`.
    pub fn contains(&self, id: u32) -> (r: bool)
        ensures
            r == self@.contains(id),
    {
        let page_idx: usize = (id >> 16) as usize;
        let bit_idx: usize = (id & 0xFFFF) as usize;
        proof {
            assert((id >> 16) == id / 65536 && (id & 0xFFFF) == id % 65536) by (bit_vector);
        }
        if page_idx >= self.pages.len() {
            proof {
                lemma_zero_bit((id % 64) as u64);
            }
            return false;
        }
        match &self.pages[page_idx] {
            Some(page) => {
                let word: u64 = page.words[bit_idx / 64];
                let k: u64 = (bit_idx % 64) as u64;
                proof {
                    assert(k < 64 ==> ((word & (1u64 << k) != 0) == ((word >> k) & 1u64 == 1u64)))
                        by (bit_vector);
                }
                word & (1u64 << k) != 0
            },
            None => {
                proof {
                    lemma_zero_bit((id % 64) as u64);
                }
                false
            },
        }
    }

    /// Adds `id` to the bitmap and marks its page as written in this generation.
    pub fn insert(&mut self, id: u32)
        ensures
            final(self)@ == old(self)@.insert(id),
            final(self).generation() == old(self).generation(),
            forall|i: int|
                #[trigger] final(self).page_last_used(i) == (if i == id / 65536 {
                    Some(old(self).generation())
                } else {
                    old(self).page_last_used(i)
                }),
            final(self).page_slots() == (if id / 65536 < old(self).page_slots() {
                old(self).page_slots()
            } else {
                (id / 65536 + 1) as nat
            }),
    {
        proof {
            use_type_invariant(&*self);
            assert((id >> 16) == id / 65536 && (id & 0xFFFF) == id % 65536) by (bit_vector);
        }
        let page_idx: usize = (id >> 16) as usize;
        let bit_idx: usize = (id & 0xFFFF) as usize;
        let generation: u64 = self.generation;
        let mut pages: Vec<Option<Box<IdBitmapPage>>> = Vec::new();
        core::mem::swap(&mut pages, &mut self.pages);
        let ghost before = pages@;
        while pages.len() <= page_idx
            invariant
                page_idx < 65536,
                before.len() <= pages@.len() <= 65536,
                pages@.len() > before.len() ==> pages@.len() <= page_idx + 1,
                forall|i: int| 0 <= i < before.len() ==> #[trigger] pages@[i] == before[i],
                forall|i: int| before.len() <= i < pages@.len() ==> #[trigger] pages@[i] is None,
            decreases page_idx + 1 - pages@.len(),
        {
            pages.push(None);
        }
        let ghost grown = pages@;
        let mut slot: Option<Box<IdBitmapPage>> = None;
        core::mem::swap(&mut slot, &mut pages[page_idx]);
        let mut page: Box<IdBitmapPage> = match slot {
            Some(page) => page,
            None => Box::new(IdBitmapPage::new(generation)),
        };
        let ghost old_words = page.words@;
        page.last_used_generation = generation;
        let word_idx: usize = bit_idx / 64;
        let k: u64 = (bit_idx % 64) as u64;
        let word: u64 = page.words[word_idx] | (1u64 << k);
        page.words[word_idx] = word;
        pages.set(page_idx, Some(page));
        self.pages = pages;
        proof {
            assert(page_idx < before.len() ==> grown[page_idx as int] == before[page_idx as int]);
            assert forall|other: u32| #[trigger] self@.contains(other) == (other == id
                || old(self)@.contains(other)) by {
                let j: u64 = (other % 64) as u64;
                let old_word = old_words[word_idx as int];
                lemma_or_bit(old_word, k, j);
                lemma_zero_bit(j);
            }
            assert(self@ =~= old(self)@.insert(id));
        }
    }

    /// Empties the bitmap and starts a new generation. Pages that were last written more than
    /// [`ID_BITMAP_PAGE_EVICTION_THRESHOLD`] generations ago are freed, the others are kept. No slot is
    /// left behind the last page.
    pub fn clear(&mut self)
        requires
            old(self).generation() < u64::MAX,
        ensures
            final(self)@ == Set::<u32>::empty(),
            final(self).generation() == old(self).generation() + 1,
            forall|i: int|
                #[trigger] final(self).page_last_used(i) == (match old(self).page_last_used(i) {
                    Some(used) if final(self).generation() - used
                        <= ID_BITMAP_PAGE_EVICTION_THRESHOLD => Some(used),
                    _ => None,
                }),
            final(self).page_slots() <= old(self).page_slots(),
            final(self).page_slots() > 0 ==> final(self).page_last_used(
                final(self).page_slots() - 1,
            ) is Some,
            forall|i: int|
                i >= final(self).page_slots() ==> #[trigger] final(self).page_last_used(i) is None,
    {
        proof {
            use_type_invariant(&*self);
        }
        self.generation = self.generation + 1;
        let generation: u64 = self.generation;
        let mut pages: Vec<Option<Box<IdBitmapPage>>> = Vec::new();
        core::mem::swap(&mut pages, &mut self.pages);
        let ghost before = pages@;
        let mut i: usize = 0;
        while i < pages.len()
            invariant
                i <= pages@.len(),
                pages@.len() == before.len(),
                before.len() <= 65536,
                forall|j: int|
                    0 <= j < before.len() ==> (#[trigger] before[j] matches Some(page)
                        ==> page.last_used_generation <= generation),
                forall|j: int| i <= j < before.len() ==> #[trigger] pages@[j] == before[j],
                forall|j: int| 0 <= j < i ==> #[trigger] Self::cleared(before, pages@, generation, j),
            decreases pages@.len() - i,
        {
            let ghost current = pages@;
            let mut slot: Option<Box<IdBitmapPage>> = None;
            core::mem::swap(&mut slot, &mut pages[i]);
            match slot {
                Some(page) => {
                    if generation - page.last_used_generation <= ID_BITMAP_PAGE_EVICTION_THRESHOLD {
                        let mut page = page;
                        page.words = [0u64; 1024];
                        pages.set(i, Some(page));
                    }
                },
                None => {},
            }
            assert forall|j: int| 0 <= j < i + 1 implies #[trigger] Self::cleared(
                before,
                pages@,
                generation,
                j,
            ) by {
                assert(j < i ==> Self::cleared(before, current, generation, j));
            }
            i = i + 1;
        }
        let ghost swept = pages@;
        while pages.len() > 0 && pages[pages.len() - 1].is_none()
            invariant
                pages@.len() <= swept.len() <= 65536,
                forall|j: int| 0 <= j < pages@.len() ==> #[trigger] pages@[j] == swept[j],
                forall|j: int| pages@.len() <= j < swept.len() ==> #[trigger] swept[j] is None,
            decreases pages@.len(),
        {
            let _ = pages.pop();
        }
        proof {
            assert forall|j: int| 0 <= j < pages@.len() implies (#[trigger] pages@[j] matches Some(
                page,
            ) ==> page.last_used_generation <= generation) by {
                assert(Self::cleared(before, swept, generation, j));
            }
        }
        self.pages = pages;
        proof {
            assert forall|id: u32| !self@.contains(id) by {
                lemma_zero_bit((id % 64) as u64);
                assert(Self::cleared(before, swept, generation, id as int / 64 / 1024) || id as int
                    / 64 / 1024 >= swept.len());
            }
            assert(self@ =~= Set::<u32>::empty());
            assert forall|j: int|
                #[trigger] self.page_last_used(j) == (match old(self).page_last_used(j) {
                    Some(used) if self.generation() - used <= ID_BITMAP_PAGE_EVICTION_THRESHOLD =>
                        Some(used),
                    _ => None,
                }) by {
                assert(0 <= j < swept.len() ==> Self::cleared(before, swept, generation, j));
            }
        }
    }

    spec fn cleared(
        before: Seq<Option<Box<IdBitmapPage>>>,
        after: Seq<Option<Box<IdBitmapPage>>>,
        generation: u64,
        j: int,
    ) -> bool {
        match before[j] {
            Some(page) if generation - page.last_used_generation
                <= ID_BITMAP_PAGE_EVICTION_THRESHOLD => {
                &&& after[j] matches Some(kept)
                &&& kept.last_used_generation == page.last_used_generation
                &&& forall|w: int| 0 <= w < 1024 ==> #[trigger] kept.words@[w] == 0u64
            },
            _ => after[j] is None,
        }
    }

    /// The number of identifiers below `n` in the bitmap.
    spec fn count_below(pages: Seq<Option<Box<IdBitmapPage>>>, n: nat) -> nat
        decreases n,
    {
        if n == 0 {
            0
        } else {
            Self::count_below(pages, (n - 1) as nat) + (if Self::has(pages, (n - 1) as u32) {
                1nat
            } else {
                0nat
            })
        }
    }

    proof fn lemma_count_is_len(pages: Seq<Option<Box<IdBitmapPage>>>, n: nat)
        requires
            n <= 0x1_0000_0000,
        ensures
            ({
                let ids = Set::new(|id: u32| id < n && Self::has(pages, id));
                ids.finite() && ids.len() == Self::count_below(pages, n)
            }),
        decreases n,
    {
        let ids = Set::new(|id: u32| id < n && Self::has(pages, id));
        if n == 0 {
            assert(ids =~= Set::<u32>::empty());
        } else {
            let below = Set::new(|id: u32| id < n - 1 && Self::has(pages, id));
            Self::lemma_count_is_len(pages, (n - 1) as nat);
            assert(below =~= Set::new(|id: u32| id < (n - 1) as nat && Self::has(pages, id)));
            if Self::has(pages, (n - 1) as u32) {
                assert(ids =~= below.insert((n - 1) as u32));
            } else {
                assert(ids =~= below);
            }
        }
    }

    proof fn lemma_count_gap(pages: Seq<Option<Box<IdBitmapPage>>>, from: nat, to: nat)
        requires
            from <= to <= 0x1_0000_0000,
            forall|id: u32| from <= id < to ==> !#[trigger] Self::has(pages, id),
        ensures
            Self::count_below(pages, to) == Self::count_below(pages, from),
        decreases to - from,
    {
        if from < to {
            Self::lemma_count_gap(pages, from, (to - 1) as nat);
        }
    }

    proof fn lemma_count_word(pages: Seq<Option<Box<IdBitmapPage>>>, index: nat, n: nat)
        requires
            index < 0x400_0000,
            n <= 64,
        ensures
            Self::count_below(pages, index * 64 + n) == Self::count_below(pages, index * 64)
                + ones_below(Self::word(pages, index as int), n),
        decreases n,
    {
        if n > 0 {
            Self::lemma_count_word(pages, index, (n - 1) as nat);
            let id = (index * 64 + (n - 1)) as u32;
            assert(id as int / 64 == index && id % 64 == n - 1);
        }
    }

    /// The number of identifiers in the bitmap.
    pub fn len(&self) -> (count: u64)
        ensures
            self@.finite(),
            count == self@.len(),
    {
        proof {
            use_type_invariant(self);
        }
        let mut count: u64 = 0;
        let mut i: usize = 0;
        while i < self.pages.len()
            invariant
                i <= self.pages@.len() <= 65536,
                count <= i * 65536,
                count == Self::count_below(self.pages@, (i * 65536) as nat),
            decreases self.pages@.len() - i,
        {
            match &self.pages[i] {
                Some(page) => {
                    let mut w: usize = 0;
                    while w < ID_BITMAP_PAGE_WORDS
                        invariant
                            i < self.pages@.len() <= 65536,
                            self.pages@[i as int] == Some(*page),
                            w <= ID_BITMAP_PAGE_WORDS,
                            count <= i * 65536 + w * 64,
                            count == Self::count_below(self.pages@, (i * 65536 + w * 64) as nat),
                        decreases ID_BITMAP_PAGE_WORDS - w,
                    {
                        let word: u64 = page.words[w];
                        let ghost index = (i * 1024 + w) as nat;
                        proof {
                            assert(index as int / 1024 == i && index as int % 1024 == w);
                            assert(Self::word(self.pages@, index as int) == word);
                            Self::lemma_count_word(self.pages@, index, 64);
                            lemma_ones_bound(word, 64);
                        }
                        count = count + word.count_ones() as u64;
                        w = w + 1;
                    }
                },
                None => {
                    proof {
                        assert forall|id: u32|
                            (i * 65536) as nat <= id < ((i + 1) * 65536) as nat implies !#[trigger] Self::has(
                            self.pages@,
                            id,
                        ) by {
                            assert(id as int / 64 / 1024 == i);
                            lemma_zero_bit((id % 64) as u64);
                        }
                        Self::lemma_count_gap(
                            self.pages@,
                            (i * 65536) as nat,
                            ((i + 1) * 65536) as nat,
                        );
                    }
                },
            }
            i = i + 1;
        }
        proof {
            let total: nat = 0x1_0000_0000;
            assert forall|id: u32| (i * 65536) as nat <= id < total implies !#[trigger] Self::has(
                self.pages@,
                id,
            ) by {
                assert(id as int / 64 / 1024 >= i);
                lemma_zero_bit((id % 64) as u64);
            }
            Self::lemma_count_gap(self.pages@, (i * 65536) as nat, total);
            Self::lemma_count_is_len(self.pages@, total);
            assert(self@ =~= Set::new(|id: u32| id < total && Self::has(self.pages@, id)));
        }
        count
    }

    /// Whether the bitmap holds nothing.
    pub fn is_empty(&self) -> (r: bool)
        ensures
            r == (self@ == Set::<u32>::empty()),
    {
        let empty = IdBitmap::new();
        let r = bitmaps_equal(self, &empty);
        r
    }

    /// What [`Self::debug_text`] says.
    pub open spec fn debug_says(&self) -> Seq<char> {
        "IdBitmap { total_pages: "@ + crate::text::decimal(self.page_slots())
            + ", allocated_pages: "@ + crate::text::decimal(
            self.allocated_pages(self.page_slots() as int),
        ) + ", generation: "@ + crate::text::decimal(self.generation() as nat) + ", len: "@
            + crate::text::decimal(self@.len()) + " }"@
    }

    /// Tells the slots for pages, the pages that are allocated, the generation and the number of
    /// identifiers.
    pub fn debug_text(&self) -> (r: String)
        ensures
            r@ == self.debug_says(),
    {
        proof {
            use_type_invariant(self);
        }
        let mut allocated: u64 = 0;
        let mut i: usize = 0;
        while i < self.pages.len()
            invariant
                i <= self.pages@.len() <= 65536,
                allocated <= i,
                allocated == self.allocated_pages(i as int),
            decreases self.pages@.len() - i,
        {
            if self.pages[i].is_some() {
                allocated = allocated + 1;
            }
            i = i + 1;
        }
        let mut r: String = "IdBitmap { total_pages: ".to_owned();
        r.append(decimal_text(self.pages.len() as u64).as_str());
        r.append(", allocated_pages: ");
        r.append(decimal_text(allocated).as_str());
        r.append(", generation: ");
        r.append(decimal_text(self.generation).as_str());
        r.append(", len: ");
        r.append(decimal_text(self.len()).as_str());
        r.append(" }");
        assert(r@ =~= self.debug_says());
        r
    }

    /// Empties the bitmap and then adds every identifier of `ids`.
    pub fn populate(&mut self, ids: &Vec<u32>)
        requires
            old(self).generation() < u64::MAX,
        ensures
            final(self)@ == ids@.to_set(),
            final(self).generation() == old(self).generation() + 1,
    {
        self.clear();
        let mut i: usize = 0;
        while i < ids.len()
            invariant
                i <= ids@.len(),
                self@ == ids@.subrange(0, i as int).to_set(),
                self.generation() == old(self).generation() + 1,
            decreases ids@.len() - i,
        {
            self.insert(ids[i]);
            i = i + 1;
            proof {
                let shorter = ids@.subrange(0, i - 1);
                let longer = ids@.subrange(0, i as int);
                assert(longer =~= shorter.push(ids@[i - 1]));
                assert forall|id: u32|
                    longer.to_set().contains(id) == shorter.to_set().insert(
                        ids@[i - 1],
                    ).contains(id) by {
                    if longer.contains(id) {
                        let k = choose|k: int| 0 <= k < longer.len() && longer[k] == id;
                        assert(k < i - 1 ==> shorter[k] == id);
                    }
                    if shorter.contains(id) {
                        let k = choose|k: int| 0 <= k < shorter.len() && shorter[k] == id;
                        assert(longer[k] == id);
                    }
                    assert(longer[i - 1] == ids@[i - 1]);
                }
                assert(longer.to_set() =~= shorter.to_set().insert(ids@[i - 1]));
            }
        }
        proof {
            assert(ids@.subrange(0, ids@.len() as int) =~= ids@);
        }
    }
}

proof fn lemma_zero_bit(k: u64)
    ensures
        k < 64 ==> !word_bit(0u64, k),
{
    assert(k < 64 ==> (0u64 >> k) & 1u64 != 1u64) by (bit_vector);
}

proof fn lemma_or_bit(word: u64, k: u64, j: u64)
    ensures
        k < 64 && j < 64 ==> word_bit(word | (1u64 << k), j) == (j == k || word_bit(word, j)),
{
    assert(k < 64 && j < 64 ==> ((((word | (1u64 << k)) >> j) & 1u64 == 1u64) == (j == k || (word
        >> j) & 1u64 == 1u64))) by (bit_vector);
}

/// The number of bits below bit `n` that are set in `word`.
pub open spec fn ones_below(word: u64, n: nat) -> nat
    decreases n,
{
    if n == 0 {
        0
    } else {
        ones_below(word, (n - 1) as nat) + (if word_bit(word, (n - 1) as u64) {
            1nat
        } else {
            0nat
        })
    }
}

proof fn lemma_ones_bound(word: u64, n: nat)
    ensures
        ones_below(word, n) <= n,
    decreases n,
{
    if n > 0 {
        lemma_ones_bound(word, (n - 1) as nat);
    }
}

/// `u64::count_ones`: the number of bits set in the word.
pub assume_specification[ u64::count_ones ](word: u64) -> (r: u32)
    ensures
        r == ones_below(word, 64),
;

proof fn lemma_words_differ(a: u64, b: u64)
    requires
        a != b,
    ensures
        exists|k: u64| k < 64 && word_bit(a, k) != word_bit(b, k),
{
    let x = a ^ b;
    assert(a != b ==> a ^ b != 0) by (bit_vector);
    vstd::std_specs::bits::axiom_u64_trailing_zeros(x);
    let k: u64 = vstd::std_specs::bits::u64_trailing_zeros(x) as u64;
    assert((x >> k) & 1u64 == 1u64);
    assert(k < 64 && ((a ^ b) >> k) & 1u64 == 1u64 ==> ((a >> k) & 1u64 == 1u64) != ((b >> k) & 1u64
        == 1u64)) by (bit_vector);
    assert(word_bit(a, k) != word_bit(b, k));
}

/// Compares the contents of two bitmaps; a page that is not allocated counts as zero bits.
fn bitmaps_equal(left: &IdBitmap, right: &IdBitmap) -> (r: bool)
    ensures
        r == (left@ == right@),
{
    proof {
        use_type_invariant(left);
        use_type_invariant(right);
    }
    let max_pages: usize = if left.pages.len() > right.pages.len() {
        left.pages.len()
    } else {
        right.pages.len()
    };
    let mut i: usize = 0;
    while i < max_pages
        invariant
            i <= max_pages <= 65536,
            left.pages@.len() <= max_pages,
            right.pages@.len() <= max_pages,
            forall|w: int|
                0 <= w < i * 1024 ==> #[trigger] IdBitmap::word(left.pages@, w) == IdBitmap::word(
                    right.pages@,
                    w,
                ),
        decreases max_pages - i,
    {
        let mut w: usize = 0;
        while w < ID_BITMAP_PAGE_WORDS
            invariant
                w <= ID_BITMAP_PAGE_WORDS,
                i < max_pages <= 65536,
                forall|v: int|
                    0 <= v < i * 1024 + w ==> #[trigger] IdBitmap::word(left.pages@, v)
                        == IdBitmap::word(right.pages@, v),
            decreases ID_BITMAP_PAGE_WORDS - w,
        {
            let left_word: u64 = page_word(left, i, w);
            let right_word: u64 = page_word(right, i, w);
            if left_word != right_word {
                proof {
                    lemma_words_differ(left_word, right_word);
                    let k = choose|k: u64|
                        k < 64 && word_bit(left_word, k) != word_bit(right_word, k);
                    let id = ((i * 1024 + w) * 64 + k) as u32;
                    assert(id as int / 64 == i * 1024 + w && id % 64 == k);
                    assert(left@.contains(id) != right@.contains(id));
                }
                return false;
            }
            w = w + 1;
        }
        i = i + 1;
    }
    proof {
        assert forall|id: u32| left@.contains(id) == right@.contains(id) by {
            let w = id as int / 64;
            assert(w < max_pages * 1024 ==> IdBitmap::word(left.pages@, w) == IdBitmap::word(
                right.pages@,
                w,
            ));
        }
        assert(left@ =~= right@);
    }
    true
}

/// Word `w` of page `i`.
fn page_word(bitmap: &IdBitmap, i: usize, w: usize) -> (word: u64)
    requires
        w < 1024,
        i < 65536,
    ensures
        word == IdBitmap::word(bitmap.pages@, i * 1024 + w),
{
    proof {
        assert((i * 1024 + w) / 1024 == i && (i * 1024 + w) % 1024 == w);
    }
    if i < bitmap.pages.len() {
        match &bitmap.pages[i] {
            Some(page) => page.words[w],
            None => 0,
        }
    } else {
        0
    }
}

impl PartialEq for IdBitmap {
    fn eq(&self, other: &Self) -> (r: bool) {
        bitmaps_equal(self, other)
    }
}

impl vstd::std_specs::cmp::PartialEqSpecImpl for IdBitmap {
    open spec fn obeys_eq_spec() -> bool {
        true
    }

    open spec fn eq_spec(&self, other: &Self) -> bool {
        self@ == other@
    }
}

impl Default for IdBitmap {
    fn default() -> (bitmap: Self)
        ensures
            bitmap@ == Set::<u32>::empty(),
    {
        IdBitmap::new()
    }
}

}
