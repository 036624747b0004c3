//! The page accumulator: the growing, gap-free sequence of output pages,
//! and the compositing of each card onto its slot.

use vstd::prelude::*;
use crate::canvas::{
    blank_sheet, canvas_height, canvas_width, overlaid, overlay_on_page, white_sheet, Canvas,
};
use crate::grid::{
    map_slot, place_of, slot_page, slot_pair, slot_x, slot_y, Grid, Placement, SHEET_HEIGHT,
    SHEET_WIDTH,
};
use vstd::arithmetic::div_mod::{lemma_div_is_ordered, lemma_div_pos_is_pos};

verus! {

/// The model of a page set after a page was ensured: unchanged if page
/// `k` already existed, otherwise padded with fresh empty pages up to and
/// including index `k`.
pub open spec fn ensured(m: Seq<Seq<Placement>>, k: int) -> Seq<Seq<Placement>> {
    if m.len() >= k + 1 {
        m
    } else {
        m + Seq::new((k + 1 - m.len()) as nat, |t: int| Seq::<Placement>::empty())
    }
}

/// The model of a page set after one slot was composited: the slot's page
/// is ensured, then the slot's placement is appended to that page.
pub open spec fn composited(m: Seq<Seq<Placement>>, g: Grid, i: int) -> Seq<Seq<Placement>> {
    let p = slot_page(g, i);
    let e = ensured(m, p);
    e.update(p, e[p].push(place_of(g, i)))
}

/// The pixel canvases of a page set after a page was ensured: unchanged if
/// page `k` already existed, otherwise padded with white sheets up to and
/// including index `k`.
pub open spec fn ensured_canvases(cs: Seq<Canvas>, k: int) -> Seq<Canvas> {
    if cs.len() >= k + 1 {
        cs
    } else {
        cs + Seq::new((k + 1 - cs.len()) as nat, |t: int| white_sheet(SHEET_WIDTH, SHEET_HEIGHT))
    }
}

/// The pixel canvases of a page set after one card was composited at one
/// slot: the slot's page is ensured, then the card is overlaid onto that
/// page at the slot's pixel position.
pub open spec fn composited_canvases(cs: Seq<Canvas>, g: Grid, i: int, card: Canvas) -> Seq<
    Canvas,
> {
    let p = slot_page(g, i);
    let e = ensured_canvases(cs, p);
    e.update(p, overlaid(e[p], card, slot_x(g, i) as u32, slot_y(g, i) as u32))
}

/// The pixel canvases after a whole run of directory entries was composited
/// in slot order: each decoded image is overlaid twice, on the next two
/// slots; entries without an image change nothing.
pub open spec fn batch_canvases(g: Grid, entries: Seq<Option<Canvas>>) -> Seq<Canvas>
    decreases entries.len(),
{
    if entries.len() == 0 {
        Seq::empty()
    } else {
        let prev = batch_canvases(g, entries.drop_last());
        match entries.last() {
            Some(card) => {
                let s = 2 * (count_images(entries.drop_last()) as int);
                composited_canvases(composited_canvases(prev, g, s, card), g, s + 1, card)
            },
            None => prev,
        }
    }
}

/// How many placements the whole page set holds.
pub open spec fn total_placements(m: Seq<Seq<Placement>>) -> nat
    decreases m.len(),
{
    if m.len() == 0 {
        0
    } else {
        total_placements(m.drop_last()) + m.last().len()
    }
}

/// The model of a page set after `n` images were composited in slot order:
/// image number `k` lands on slots `2k` and `2k + 1`.
pub open spec fn batch(g: Grid, n: nat) -> Seq<Seq<Placement>>
    decreases n,
{
    if n == 0 {
        Seq::empty()
    } else {
        composited(composited(batch(g, (n - 1) as nat), g, 2 * (n - 1)), g, 2 * (n - 1) + 1)
    }
}

/// How many pages `n` images need: `ceil(2n / cards_per_page)`.
pub open spec fn pages_needed(g: Grid, n: nat) -> int {
    if n == 0 {
        0
    } else {
        (2 * n - 1) / (g.cards_per_page as int) + 1
    }
}

/// How many of the given directory entries decoded to an image.
pub open spec fn count_images(entries: Seq<Option<Canvas>>) -> nat
    decreases entries.len(),
{
    if entries.len() == 0 {
        0
    } else {
        count_images(entries.drop_last()) + (if entries.last() is Some {
            1nat
        } else {
            0nat
        })
    }
}

/// The shared accumulator of output pages. Pages exist from index zero
/// upward with no gap, each a sheet-sized canvas; the ghost model records,
/// per page, every placement composited onto it.
pub struct PageSet {
    pages: Vec<Canvas>,
    placements: Ghost<Seq<Seq<Placement>>>,
}

impl View for PageSet {
    type V = Seq<Seq<Placement>>;

    closed spec fn view(&self) -> Seq<Seq<Placement>> {
        self.placements@
    }
}

impl PageSet {
    /// The pixel canvases of the pages, in page order.
    pub closed spec fn canvases(self) -> Seq<Canvas> {
        self.pages@
    }

    /// Well-formedness: one model entry per page, every page sheet-sized.
    pub closed spec fn wf(self) -> bool {
        &&& self.placements@.len() == self.pages@.len()
        &&& forall|i: int|
            0 <= i < self.pages@.len() ==> canvas_width(#[trigger] self.pages@[i]) == SHEET_WIDTH
        &&& forall|i: int|
            0 <= i < self.pages@.len() ==> canvas_height(#[trigger] self.pages@[i])
                == SHEET_HEIGHT
    }

    /// An empty page set: a run starts with no page at all.
    pub fn new() -> (r: PageSet)
        ensures
            r.wf(),
            r@ == Seq::<Seq<Placement>>::empty(),
            r.canvases() == Seq::<Canvas>::empty(),
    {
        PageSet { pages: Vec::new(), placements: Ghost(Seq::empty()) }
    }

    /// How many pages exist so far.
    pub fn num_pages(&self) -> (r: usize)
        requires
            self.wf(),
        ensures
            r == self@.len(),
    {
        self.pages.len()
    }

    /// Grows the page sequence until page `page_number` exists, appending
    /// blank white sheet-sized pages; existing pages are never touched, and
    /// a page set that is already long enough stays exactly as it is.
    pub fn ensure_page(&mut self, page_number: u32)
        requires
            old(self).wf(),
        ensures
            final(self).wf(),
            final(self)@ == ensured(old(self)@, page_number as int),
            final(self).canvases() == ensured_canvases(old(self).canvases(), page_number as int),
    {
        while self.pages.len() <= page_number as usize
            invariant
                self.wf(),
                old(self)@.len() <= self@.len(),
                old(self)@.len() == old(self).canvases().len(),
                self@.len() == self.canvases().len(),
                old(self)@.len() > page_number as int ==> self@ == old(self)@,
                old(self)@.len() <= page_number as int ==> self@.len() <= page_number as int + 1,
                forall|i: int| 0 <= i < old(self)@.len() ==> self@[i] == old(self)@[i],
                forall|i: int|
                    old(self)@.len() <= i < self@.len() ==> self@[i] == Seq::<Placement>::empty(),
                forall|i: int|
                    0 <= i < old(self)@.len() ==> self.canvases()[i] == old(self).canvases()[i],
                forall|i: int|
                    old(self)@.len() <= i < self@.len() ==> self.canvases()[i] == white_sheet(
                        SHEET_WIDTH,
                        SHEET_HEIGHT,
                    ),
            decreases page_number as int + 1 - self.pages@.len(),
        {
            self.pages.push(blank_sheet());
            self.placements = Ghost(self.placements@.push(Seq::empty()));
        }
        proof {
            assert(self@ =~= ensured(old(self)@, page_number as int));
            assert(self.canvases() =~= ensured_canvases(
                old(self).canvases(),
                page_number as int,
            ));
        }
    }

    /// Composites one card at one slot index: resolves the placement,
    /// ensures the target page exists, and overlays the card's pixels
    /// there. Exactly one page's pixels change — every other page's canvas
    /// is left as it was — and the model gains exactly that one placement.
    pub fn composite(&mut self, grid: &Grid, slot_index: u32, img: &Canvas)
        requires
            old(self).wf(),
            grid.wf(),
        ensures
            final(self).wf(),
            final(self)@ == composited(old(self)@, *grid, slot_index as int),
            final(self).canvases() == composited_canvases(
                old(self).canvases(),
                *grid,
                slot_index as int,
                *img,
            ),
            forall|j: int|
                0 <= j < old(self)@.len() && j != slot_page(*grid, slot_index as int)
                    ==> final(self)@[j] == old(self)@[j],
            forall|j: int|
                0 <= j < old(self).canvases().len() && j != slot_page(*grid, slot_index as int)
                    ==> final(self).canvases()[j] == old(self).canvases()[j],
    {
        let p = map_slot(grid, slot_index);
        self.ensure_page(p.page);
        proof {
            lemma_div_pos_is_pos(slot_index as int, grid.cards_per_page as int);
            lemma_ensured_shape(old(self)@, p.page as int);
            lemma_ensured_canvases_shape(old(self).canvases(), p.page as int);
        }
        overlay_on_page(&mut self.pages, p.page as usize, img, p.x, p.y);
        let ghost mid = self.placements@;
        self.placements = Ghost(mid.update(p.page as int, mid[p.page as int].push(p)));
        proof {
            assert(self@ =~= composited(old(self)@, *grid, slot_index as int));
            assert(self.canvases() =~= composited_canvases(
                old(self).canvases(),
                *grid,
                slot_index as int,
                *img,
            ));
        }
    }

    /// Composites a whole run of directory entries in slot order: entries
    /// that decoded to an image take the next two slot indices, entries
    /// that did not are skipped and consume no slot. The result holds
    /// exactly two placements per image on exactly the pages they need —
    /// no page index is missing — and its canvases are exactly the
    /// overlays those placements describe.
    pub fn compose_all(grid: &Grid, entries: &Vec<Option<Canvas>>) -> (r: PageSet)
        requires
            grid.wf(),
            entries@.len() < 0x8000_0000,
        ensures
            r.wf(),
            r@ == batch(*grid, count_images(entries@)),
            r@.len() == pages_needed(*grid, count_images(entries@)),
            total_placements(r@) == 2 * count_images(entries@),
            r.canvases() == batch_canvases(*grid, entries@),
    {
        let mut set = PageSet::new();
        let mut count: u32 = 0;
        let mut idx: usize = 0;
        proof {
            assert(entries@.take(0) =~= Seq::<Option<Canvas>>::empty());
        }
        while idx < entries.len()
            invariant
                grid.wf(),
                set.wf(),
                idx <= entries@.len(),
                entries@.len() < 0x8000_0000,
                count as nat == count_images(entries@.take(idx as int)),
                set@ == batch(*grid, count as nat),
                set.canvases() == batch_canvases(*grid, entries@.take(idx as int)),
            decreases entries@.len() - idx,
        {
            proof {
                lemma_count_images_le_len(entries@.take(idx as int));
                assert(entries@.take(idx as int).len() == idx as int);
                lemma_count_images_take_step(entries@, idx as int);
                assert(entries@.take(idx as int + 1).drop_last() =~= entries@.take(idx as int));
                assert(entries@.take(idx as int + 1).last() == entries@[idx as int]);
            }
            match &entries[idx] {
                Some(img) => {
                    let (front, back) = slot_pair(count);
                    set.composite(grid, front, img);
                    set.composite(grid, back, img);
                    count = count + 1;
                },
                None => {},
            }
            idx = idx + 1;
        }
        proof {
            assert(entries@.take(entries@.len() as int) =~= entries@);
            lemma_batch_shape(*grid, count as nat);
        }
        set
    }

    /// Hands the finished pages over, in page order, for the writer: the
    /// returned vector is exactly the accumulated canvases.
    pub fn into_pages(self) -> (r: Vec<Canvas>)
        requires
            self.wf(),
        ensures
            r@ == self.canvases(),
            r@.len() == self@.len(),
            forall|i: int|
                0 <= i < r@.len() ==> canvas_width(#[trigger] r@[i]) == SHEET_WIDTH,
            forall|i: int|
                0 <= i < r@.len() ==> canvas_height(#[trigger] r@[i]) == SHEET_HEIGHT,
    {
        self.pages
    }
}

/// What `ensured` does to shape and content: it only ever appends empty
/// pages, up to index `k`.
pub proof fn lemma_ensured_shape(m: Seq<Seq<Placement>>, k: int)
    requires
        0 <= k,
    ensures
        ensured(m, k).len() == (if m.len() >= k + 1 {
            m.len() as int
        } else {
            k + 1
        }),
        m.len() <= ensured(m, k).len(),
        forall|i: int| 0 <= i < m.len() ==> ensured(m, k)[i] == m[i],
        forall|i: int|
            m.len() <= i < ensured(m, k).len() ==> ensured(m, k)[i] == Seq::<Placement>::empty(),
{
}

/// What `ensured_canvases` does to shape and content: it only ever appends
/// white sheets, up to index `k`.
pub proof fn lemma_ensured_canvases_shape(cs: Seq<Canvas>, k: int)
    requires
        0 <= k,
    ensures
        ensured_canvases(cs, k).len() == (if cs.len() >= k + 1 {
            cs.len() as int
        } else {
            k + 1
        }),
        cs.len() <= ensured_canvases(cs, k).len(),
        forall|i: int| 0 <= i < cs.len() ==> ensured_canvases(cs, k)[i] == cs[i],
        forall|i: int|
            cs.len() <= i < ensured_canvases(cs, k).len() ==> ensured_canvases(cs, k)[i]
                == white_sheet(SHEET_WIDTH, SHEET_HEIGHT),
{
}

/// Law: `ensure_page` is idempotent — ensuring page `k` a second time
/// changes nothing, and from at most `k + 1` pages the first call leaves
/// exactly `k + 1` pages, never more.
pub proof fn lemma_ensure_page_idempotent(m: Seq<Seq<Placement>>, k: int)
    requires
        0 <= k,
    ensures
        ensured(ensured(m, k), k) == ensured(m, k),
        m.len() <= k + 1 ==> ensured(m, k).len() == k + 1,
{
    lemma_ensured_shape(m, k);
    lemma_ensured_shape(ensured(m, k), k);
    assert(ensured(ensured(m, k), k) =~= ensured(m, k));
}

/// Appending one page adds that page's placements to the total.
proof fn lemma_total_push(m: Seq<Seq<Placement>>, e: Seq<Placement>)
    ensures
        total_placements(m.push(e)) == total_placements(m) + e.len(),
{
    assert(m.push(e).drop_last() =~= m);
    assert(m.push(e).last() == e);
}

/// Ensuring a page adds no placement.
proof fn lemma_total_ensured(m: Seq<Seq<Placement>>, k: int)
    requires
        0 <= k,
    ensures
        total_placements(ensured(m, k)) == total_placements(m),
    decreases (if m.len() >= k + 1 {
        0int
    } else {
        k + 1 - m.len()
    }),
{
    if m.len() >= k + 1 {
    } else {
        assert(ensured(m, k) =~= ensured(m.push(Seq::empty()), k));
        lemma_total_push(m, Seq::empty());
        lemma_total_ensured(m.push(Seq::empty()), k);
    }
}

/// Appending one placement to one existing page raises the total by one.
proof fn lemma_total_update_push(m: Seq<Seq<Placement>>, p: int, pl: Placement)
    requires
        0 <= p < m.len(),
    ensures
        total_placements(m.update(p, m[p].push(pl))) == total_placements(m) + 1,
    decreases m.len(),
{
    let m2 = m.update(p, m[p].push(pl));
    if p == m.len() - 1 {
        assert(m2.drop_last() =~= m.drop_last());
        assert(m2.last() == m[p].push(pl));
    } else {
        assert(m2.drop_last() =~= m.drop_last().update(p, m.drop_last()[p].push(pl)));
        assert(m2.last() == m.last());
        lemma_total_update_push(m.drop_last(), p, pl);
    }
}

/// One composite grows the page count only as far as its own page asks,
/// and adds exactly one placement.
proof fn lemma_composited_shape(m: Seq<Seq<Placement>>, g: Grid, i: int)
    requires
        g.wf(),
        0 <= i,
    ensures
        composited(m, g, i).len() == (if m.len() >= slot_page(g, i) + 1 {
            m.len() as int
        } else {
            slot_page(g, i) + 1
        }),
        total_placements(composited(m, g, i)) == total_placements(m) + 1,
{
    let p = slot_page(g, i);
    lemma_div_pos_is_pos(i, g.cards_per_page as int);
    lemma_ensured_shape(m, p);
    lemma_total_ensured(m, p);
    lemma_total_update_push(ensured(m, p), p, place_of(g, i));
}

/// Law: a batch of `n` images yields exactly `2n` placements spread over
/// exactly `ceil(2n / cards_per_page)` pages, every page index present.
pub proof fn lemma_batch_shape(g: Grid, n: nat)
    requires
        g.wf(),
    ensures
        batch(g, n).len() == pages_needed(g, n),
        total_placements(batch(g, n)) == 2 * n,
    decreases n,
{
    let c = g.cards_per_page as int;
    if n == 0 {
    } else {
        lemma_batch_shape(g, (n - 1) as nat);
        let m0 = batch(g, (n - 1) as nat);
        let s = 2 * ((n - 1) as int);
        let m1 = composited(m0, g, s);
        lemma_composited_shape(m0, g, s);
        lemma_composited_shape(m1, g, s + 1);
        lemma_div_pos_is_pos(s, c);
        lemma_div_pos_is_pos(s + 1, c);
        if n > 1 {
            lemma_div_is_ordered(2 * ((n - 1) as int) - 1, s, c);
        }
        lemma_div_is_ordered(s, s + 1, c);
    }
}

/// At most one image per entry.
proof fn lemma_count_images_le_len(s: Seq<Option<Canvas>>)
    ensures
        count_images(s) <= s.len(),
    decreases s.len(),
{
    if s.len() > 0 {
        lemma_count_images_le_len(s.drop_last());
    }
}

/// Taking one more entry counts one more image exactly when that entry
/// holds one.
proof fn lemma_count_images_take_step(s: Seq<Option<Canvas>>, i: int)
    requires
        0 <= i < s.len(),
    ensures
        count_images(s.take(i + 1)) == count_images(s.take(i)) + (if s[i] is Some {
            1int
        } else {
            0int
        }),
{
    assert(s.take(i + 1).drop_last() =~= s.take(i));
    assert(s.take(i + 1).last() == s[i]);
}

} // verus!
