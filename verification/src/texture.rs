//! The texture cache: the painter's retained view of every texture the GUI
//! engine has created.
//!
//! The GUI engine names textures by an opaque identifier.  The cache owns at
//! most one texture per identifier and supports the three operations the
//! per-frame protocol needs: `upsert` (create on first write, update a
//! sub-region in place afterwards), `get` (read-only lookup while drawing)
//! and `remove` (drop the texture at the end of the frame that frees it).
//!
//! A texture is modelled by its contents: a fixed width and height chosen by
//! the first delta, and a row-major grid of packed RGBA pixels.  The cache's
//! abstract view is a map from identifier to that model.

use vstd::prelude::*;

use crate::error::PainterError;

verus! {

/// An opaque texture identifier minted by the GUI engine.  The painter never
/// invents or reuses identifiers; it only keys its cache by them.
#[derive(Clone, Copy, Debug, PartialEq, Eq, Hash, Structural)]
pub enum TextureId {
    /// A texture managed by the GUI engine itself (fonts, internal atlases).
    Managed(u64),
    /// A texture registered by the embedding application.
    User(u64),
}

/// The abstract contents of one texture: its fixed dimensions and a
/// row-major grid of packed RGBA pixels (`pixels[row][column]`).
#[verifier::ext_equal]
pub struct TextureView {
    pub width: nat,
    pub height: nat,
    pub pixels: Seq<Seq<u32>>,
}

impl TextureView {
    /// The pixel grid is exactly `height` rows of exactly `width` pixels.
    pub open spec fn wf(self) -> bool {
        self.pixels.len() == self.height && forall|r: int|
            0 <= r < self.pixels.len() ==> (#[trigger] self.pixels[r]).len() == self.width
    }
}

/// One texture as the painter retains it: fixed dimensions and the pixel
/// contents written so far.  Pixels never written by any delta read as zero.
#[derive(Clone, Debug)]
pub struct Texture {
    pub width: u32,
    pub height: u32,
    pub pixels: Vec<Vec<u32>>,
}

impl View for Texture {
    type V = TextureView;

    open spec fn view(&self) -> TextureView {
        TextureView {
            width: self.width as nat,
            height: self.height as nat,
            pixels: self.pixels@.map_values(|row: Vec<u32>| row@),
        }
    }
}

impl Texture {
    pub open spec fn wf(self) -> bool {
        self@.wf()
    }
}

/// A request to write a rectangular region of pixels into one texture: the
/// region's top-left offset (origin when absent), its dimensions, and the
/// tightly packed pixel rows.  When the target texture does not exist yet,
/// `width` and `height` also fix the new texture's full size.
#[derive(Clone, Debug)]
pub struct ImageDelta {
    pub pos: Option<(u32, u32)>,
    pub width: u32,
    pub height: u32,
    pub pixels: Vec<Vec<u32>>,
}

impl ImageDelta {
    pub open spec fn pos_x(self) -> nat {
        match self.pos {
            Some(p) => p.0 as nat,
            None => 0,
        }
    }

    pub open spec fn pos_y(self) -> nat {
        match self.pos {
            Some(p) => p.1 as nat,
            None => 0,
        }
    }

    /// The delta's pixel grid, row by row.
    pub open spec fn rows(self) -> Seq<Seq<u32>> {
        self.pixels@.map_values(|row: Vec<u32>| row@)
    }

    /// The pixel grid matches the declared region dimensions.
    pub open spec fn wf(self) -> bool {
        self.pixels@.len() == self.height as nat && forall|r: int|
            0 <= r < self.pixels@.len() ==> (#[trigger] self.pixels@[r])@.len() == self.width as nat
    }
}

/// A texture as first created: the given dimensions, every pixel zero.
pub open spec fn blank_view(width: u32, height: u32) -> TextureView {
    TextureView {
        width: width as nat,
        height: height as nat,
        pixels: Seq::new(height as nat, |r: int| Seq::new(width as nat, |c: int| 0u32)),
    }
}

/// `t` with the rectangle of size `dw` by `dh` at offset `(x, y)` replaced
/// by `src`, every pixel outside the rectangle untouched.
pub open spec fn overlaid(
    t: TextureView,
    x: nat,
    y: nat,
    dw: nat,
    dh: nat,
    src: Seq<Seq<u32>>,
) -> TextureView {
    TextureView {
        width: t.width,
        height: t.height,
        pixels: Seq::new(
            t.pixels.len(),
            |r: int|
                Seq::new(
                    t.pixels[r].len(),
                    |c: int|
                        if y <= r < y + dh && x <= c < x + dw {
                            src[r - y][c - x]
                        } else {
                            t.pixels[r][c]
                        },
                ),
        ),
    }
}

/// Whether the delta's region lies within the texture it addresses (the
/// existing texture for an occupied identifier, the texture the delta itself
/// would create for a vacant one).
pub open spec fn upsert_fits(
    m: Map<TextureId, TextureView>,
    id: TextureId,
    d: ImageDelta,
) -> bool {
    let t = if m.contains_key(id) {
        m[id]
    } else {
        blank_view(d.width, d.height)
    };
    d.pos_x() + d.width as nat <= t.width && d.pos_y() + d.height as nat <= t.height
}

/// What one upsert does to the cache.  A vacant identifier first receives a
/// blank texture sized to the delta; then, if the region fits, it is
/// overlaid.  A region that does not fit leaves the pixel contents alone —
/// the freshly created blank entry stays, mirroring a renderer that
/// allocates the texture and then rejects the upload.
pub open spec fn upsert_map(
    m: Map<TextureId, TextureView>,
    id: TextureId,
    d: ImageDelta,
) -> Map<TextureId, TextureView> {
    let base = if m.contains_key(id) {
        m
    } else {
        m.insert(id, blank_view(d.width, d.height))
    };
    if upsert_fits(m, id, d) {
        base.insert(
            id,
            overlaid(base[id], d.pos_x(), d.pos_y(), d.width as nat, d.height as nat, d.rows()),
        )
    } else {
        base
    }
}

/// One cache operation, as the per-frame delta stream requests them.
pub enum CacheOp {
    Upsert(TextureId, ImageDelta),
    Remove(TextureId),
}

/// Whether the operation is a set-delta for `id` — the only way an
/// identifier ever (re-)enters the cache.
pub open spec fn sets_id(op: CacheOp, id: TextureId) -> bool {
    match op {
        CacheOp::Upsert(id2, _) => id2 == id,
        CacheOp::Remove(_) => false,
    }
}

pub open spec fn apply_op(m: Map<TextureId, TextureView>, op: CacheOp) -> Map<
    TextureId,
    TextureView,
> {
    match op {
        CacheOp::Upsert(id, d) => upsert_map(m, id, d),
        CacheOp::Remove(id) => m.remove(id),
    }
}

pub open spec fn apply_ops(m: Map<TextureId, TextureView>, ops: Seq<CacheOp>) -> Map<
    TextureId,
    TextureView,
>
    decreases ops.len(),
{
    if ops.len() == 0 {
        m
    } else {
        apply_ops(apply_op(m, ops[0]), ops.drop_first())
    }
}

/// Applying a sequence of image deltas for one identifier, in order.
pub open spec fn apply_deltas(
    m: Map<TextureId, TextureView>,
    id: TextureId,
    ds: Seq<ImageDelta>,
) -> Map<TextureId, TextureView>
    decreases ds.len(),
{
    if ds.len() == 0 {
        m
    } else {
        apply_deltas(upsert_map(m, id, ds[0]), id, ds.drop_first())
    }
}

/// One upsert for an identifier already in the cache never changes that
/// texture's size: only its pixel contents.
pub proof fn lemma_upsert_preserves_size(
    m: Map<TextureId, TextureView>,
    id: TextureId,
    d: ImageDelta,
)
    requires
        m.contains_key(id),
    ensures
        upsert_map(m, id, d).contains_key(id),
        upsert_map(m, id, d)[id].width == m[id].width,
        upsert_map(m, id, d)[id].height == m[id].height,
{
}

/// Once an identifier is in the cache, no sequence of further deltas for it
/// changes its texture's size.
pub proof fn lemma_deltas_preserve_size(
    m: Map<TextureId, TextureView>,
    id: TextureId,
    ds: Seq<ImageDelta>,
)
    requires
        m.contains_key(id),
    ensures
        apply_deltas(m, id, ds).contains_key(id),
        apply_deltas(m, id, ds)[id].width == m[id].width,
        apply_deltas(m, id, ds)[id].height == m[id].height,
    decreases ds.len(),
{
    if ds.len() > 0 {
        lemma_upsert_preserves_size(m, id, ds[0]);
        lemma_deltas_preserve_size(upsert_map(m, id, ds[0]), id, ds.drop_first());
    }
}

/// Update-in-place invariant: for a fresh identifier, any non-empty
/// sequence of set-deltas leaves a texture sized exactly by the first
/// delta's image dimensions, whatever the later deltas request.
pub proof fn lemma_first_delta_fixes_size(
    m: Map<TextureId, TextureView>,
    id: TextureId,
    ds: Seq<ImageDelta>,
)
    requires
        !m.contains_key(id),
        ds.len() > 0,
    ensures
        apply_deltas(m, id, ds).contains_key(id),
        apply_deltas(m, id, ds)[id].width == ds[0].width as nat,
        apply_deltas(m, id, ds)[id].height == ds[0].height as nat,
{
    let m1 = upsert_map(m, id, ds[0]);
    assert(m1.contains_key(id) && m1[id].width == ds[0].width as nat && m1[id].height == ds[0].height as nat);
    lemma_deltas_preserve_size(m1, id, ds.drop_first());
}

/// An identifier the cache does not hold stays absent under any sequence of
/// operations none of which is a set-delta for it; in particular, after a
/// free it stays absent until re-created, and `get` keeps reporting absence.
pub proof fn lemma_freed_stays_absent(
    m: Map<TextureId, TextureView>,
    id: TextureId,
    ops: Seq<CacheOp>,
)
    requires
        !m.contains_key(id),
        forall|i: int| 0 <= i < ops.len() ==> !sets_id(#[trigger] ops[i], id),
    ensures
        !apply_ops(m, ops).contains_key(id),
    decreases ops.len(),
{
    if ops.len() > 0 {
        let m1 = apply_op(m, ops[0]);
        assert(!m1.contains_key(id));
        assert forall|i: int| 0 <= i < ops.drop_first().len() implies !sets_id(
            #[trigger] ops.drop_first()[i],
            id,
        ) by {
            assert(ops.drop_first()[i] == ops[i + 1]);
        }
        lemma_freed_stays_absent(m1, id, ops.drop_first());
    }
}

/// Last-applied-overlay invariant: a fitting delta for an existing texture
/// rewrites exactly its region — the pixel at `(r, c)` becomes the delta's
/// where the region covers it and keeps its previous value everywhere else.
pub proof fn lemma_update_overlays_region(
    m: Map<TextureId, TextureView>,
    id: TextureId,
    d: ImageDelta,
    r: int,
    c: int,
)
    requires
        m.contains_key(id),
        m[id].wf(),
        upsert_fits(m, id, d),
        0 <= r < m[id].height,
        0 <= c < m[id].width,
    ensures
        upsert_map(m, id, d)[id].wf(),
        upsert_map(m, id, d)[id].pixels[r][c] == if d.pos_y() <= r < d.pos_y() + d.height as nat
            && d.pos_x() <= c < d.pos_x() + d.width as nat {
            d.rows()[r - d.pos_y()][c - d.pos_x()]
        } else {
            m[id].pixels[r][c]
        },
{
    let t = upsert_map(m, id, d)[id];
    assert(t == overlaid(m[id], d.pos_x(), d.pos_y(), d.width as nat, d.height as nat, d.rows()));
    assert forall|i: int| 0 <= i < t.pixels.len() implies (#[trigger] t.pixels[i]).len()
        == t.width by {
        assert(m[id].pixels[i].len() == m[id].width);
    }
}

/// The map described by an association list of cache entries; a later entry
/// for the same key would win, but the cache keeps keys unique.
pub open spec fn entries_map(s: Seq<(TextureId, Texture)>) -> Map<TextureId, TextureView>
    decreases s.len(),
{
    if s.len() == 0 {
        Map::empty()
    } else {
        entries_map(s.drop_last()).insert(s.last().0, s.last().1@)
    }
}

/// No two entries share an identifier.
pub open spec fn unique_keys(s: Seq<(TextureId, Texture)>) -> bool {
    forall|i: int, j: int| #![trigger s[i], s[j]]
        0 <= i < j < s.len() ==> s[i].0 != s[j].0
}

proof fn lemma_entries_map_contains(s: Seq<(TextureId, Texture)>, id: TextureId)
    ensures
        entries_map(s).contains_key(id) <==> exists|i: int| 0 <= i < s.len() && s[i].0 == id,
    decreases s.len(),
{
    if s.len() == 0 {
    } else {
        lemma_entries_map_contains(s.drop_last(), id);
        if s.last().0 == id {
            assert(s[s.len() - 1].0 == id);
        } else {
            if exists|i: int| 0 <= i < s.len() && s[i].0 == id {
                let i = choose|i: int| 0 <= i < s.len() && s[i].0 == id;
                assert(s.drop_last()[i] == s[i]);
            }
        }
    }
}

proof fn lemma_entries_map_value(s: Seq<(TextureId, Texture)>, i: int)
    requires
        unique_keys(s),
        0 <= i < s.len(),
    ensures
        entries_map(s).contains_key(s[i].0),
        entries_map(s)[s[i].0] == s[i].1@,
    decreases s.len(),
{
    if i == s.len() - 1 {
    } else {
        assert(s.drop_last()[i] == s[i]);
        lemma_entries_map_value(s.drop_last(), i);
        assert(s.last().0 != s[i].0);
    }
}

proof fn lemma_entries_map_push(s: Seq<(TextureId, Texture)>, e: (TextureId, Texture))
    ensures
        entries_map(s.push(e)) == entries_map(s).insert(e.0, e.1@),
{
    assert(s.push(e).drop_last() =~= s);
    assert(s.push(e).last() == e);
}

proof fn lemma_unique_keys_remove(s: Seq<(TextureId, Texture)>, i: int)
    requires
        unique_keys(s),
        0 <= i < s.len(),
    ensures
        unique_keys(s.remove(i)),
        forall|j: int| 0 <= j < s.remove(i).len() ==> (#[trigger] s.remove(i)[j]).0 != s[i].0,
{
    assert forall|p: int, q: int| #![trigger s.remove(i)[p], s.remove(i)[q]]
        0 <= p < q < s.remove(i).len() implies s.remove(i)[p].0 != s.remove(i)[q].0 by {
        if q < i {
            assert(s.remove(i)[p] == s[p]);
            assert(s.remove(i)[q] == s[q]);
        } else if p < i {
            assert(s.remove(i)[p] == s[p]);
            assert(s.remove(i)[q] == s[q + 1]);
        } else {
            assert(s.remove(i)[p] == s[p + 1]);
            assert(s.remove(i)[q] == s[q + 1]);
        }
    }
    assert forall|j: int| 0 <= j < s.remove(i).len() implies (#[trigger] s.remove(i)[j]).0
        != s[i].0 by {
        if j < i {
            assert(s.remove(i)[j] == s[j]);
        } else {
            assert(s.remove(i)[j] == s[j + 1]);
        }
    }
}

proof fn lemma_unique_keys_push(s: Seq<(TextureId, Texture)>, e: (TextureId, Texture))
    requires
        unique_keys(s),
        forall|i: int| 0 <= i < s.len() ==> (#[trigger] s[i]).0 != e.0,
    ensures
        unique_keys(s.push(e)),
{
    assert forall|p: int, q: int| #![trigger s.push(e)[p], s.push(e)[q]]
        0 <= p < q < s.push(e).len() implies s.push(e)[p].0 != s.push(e)[q].0 by {
        assert(s.push(e)[p] == s[p]);
        if q < s.len() {
            assert(s.push(e)[q] == s[q]);
        } else {
            assert(s.push(e)[q] == e);
        }
    }
}

proof fn lemma_entries_map_remove(s: Seq<(TextureId, Texture)>, i: int)
    requires
        unique_keys(s),
        0 <= i < s.len(),
    ensures
        entries_map(s.remove(i)) == entries_map(s).remove(s[i].0),
    decreases s.len(),
{
    let id = s[i].0;
    if i == s.len() - 1 {
        assert(s.remove(i) =~= s.drop_last());
        lemma_entries_map_contains(s.drop_last(), id);
        assert forall|j: int| 0 <= j < s.drop_last().len() implies s.drop_last()[j].0 != id by {
            assert(s.drop_last()[j] == s[j]);
        }
        assert(!entries_map(s.drop_last()).contains_key(id));
        assert(entries_map(s).remove(id) =~= entries_map(s.drop_last()));
    } else {
        let dl = s.drop_last();
        assert(s.remove(i).drop_last() =~= dl.remove(i));
        assert(s.remove(i).last() == s.last());
        assert forall|p: int, q: int| #![trigger dl[p], dl[q]]
            0 <= p < q < dl.len() implies dl[p].0 != dl[q].0 by {
            assert(dl[p] == s[p]);
            assert(dl[q] == s[q]);
        }
        assert(dl[i] == s[i]);
        lemma_entries_map_remove(dl, i);
        assert(s.last().0 != id);
        assert(s.remove(i).len() > 0);
        assert(entries_map(s.remove(i)) == entries_map(dl.remove(i)).insert(
            s.last().0,
            s.last().1@,
        ));
        assert(entries_map(s.remove(i)) =~= entries_map(s).remove(id));
    }
}

impl Texture {
    /// Allocate a texture of the given size with every pixel zero.
    pub fn blank(width: u32, height: u32) -> (t: Texture)
        ensures
            t.wf(),
            t@ == blank_view(width, height),
    {
        let mut pixels: Vec<Vec<u32>> = Vec::new();
        let mut r: usize = 0;
        while r < height as usize
            invariant
                r <= height as usize,
                pixels@.len() == r as nat,
                forall|i: int|
                    0 <= i < r ==> (#[trigger] pixels@[i])@ =~= Seq::new(
                        width as nat,
                        |c: int| 0u32,
                    ),
            decreases height as usize - r,
        {
            let mut row: Vec<u32> = Vec::new();
            let mut c: usize = 0;
            while c < width as usize
                invariant
                    c <= width as usize,
                    row@.len() == c as nat,
                    forall|j: int| 0 <= j < c ==> row@[j] == 0u32,
                decreases width as usize - c,
            {
                row.push(0u32);
                c += 1;
            }
            assert(row@ =~= Seq::new(width as nat, |j: int| 0u32));
            pixels.push(row);
            r += 1;
        }
        let t = Texture { width, height, pixels };
        assert(t@.pixels =~~= blank_view(width, height).pixels);
        t
    }

    /// Overwrite the rectangle of size `src_w` by `src_h` at offset `(x, y)`
    /// with the rows of `src`, leaving every other pixel as it was.
    pub fn write_region(&mut self, x: u32, y: u32, src_w: u32, src_h: u32, src: &Vec<Vec<u32>>)
        requires
            old(self).wf(),
            x + src_w <= old(self).width,
            y + src_h <= old(self).height,
            src@.len() == src_h as nat,
            forall|r: int| 0 <= r < src@.len() ==> (#[trigger] src@[r])@.len() == src_w as nat,
        ensures
            final(self).wf(),
            final(self)@ == overlaid(
                old(self)@,
                x as nat,
                y as nat,
                src_w as nat,
                src_h as nat,
                src@.map_values(|row: Vec<u32>| row@),
            ),
    {
        proof {
            assert(old(self).pixels@.len() == self.height as nat);
            assert forall|i: int|
                0 <= i < self.pixels@.len() implies (#[trigger] self.pixels@[i])@.len()
                == self.width as nat by {
                assert(self@.pixels[i] == self.pixels@[i]@);
            }
        }
        let mut r: usize = 0;
        while r < src_h as usize
            invariant
                r <= src_h as usize,
                self.width == old(self).width,
                self.height == old(self).height,
                x + src_w <= self.width,
                y + src_h <= self.height,
                src@.len() == src_h as nat,
                forall|i: int| 0 <= i < src@.len() ==> (#[trigger] src@[i])@.len() == src_w as nat,
                self.pixels@.len() == self.height as nat,
                forall|i: int|
                    0 <= i < self.pixels@.len() ==> (#[trigger] self.pixels@[i])@.len()
                        == self.width as nat,
                forall|i: int, j: int|
                    #![trigger self.pixels@[i]@[j]]
                    0 <= i < self.pixels@.len() && 0 <= j < self.pixels@[i]@.len()
                        ==> self.pixels@[i]@[j] == if y <= i < y + r && x <= j < x + src_w {
                        src@[i - y]@[j - x]
                    } else {
                        old(self).pixels@[i]@[j]
                    },
            decreases src_h as usize - r,
        {
            let mut c: usize = 0;
            while c < src_w as usize
                invariant
                    r < src_h as usize,
                    c <= src_w as usize,
                    self.width == old(self).width,
                    self.height == old(self).height,
                    x + src_w <= self.width,
                    y + src_h <= self.height,
                    src@.len() == src_h as nat,
                    forall|i: int|
                        0 <= i < src@.len() ==> (#[trigger] src@[i])@.len() == src_w as nat,
                    self.pixels@.len() == self.height as nat,
                    forall|i: int|
                        0 <= i < self.pixels@.len() ==> (#[trigger] self.pixels@[i])@.len()
                            == self.width as nat,
                    forall|i: int, j: int|
                        #![trigger self.pixels@[i]@[j]]
                        0 <= i < self.pixels@.len() && 0 <= j < self.pixels@[i]@.len()
                            ==> self.pixels@[i]@[j] == if (y <= i < y + r && x <= j < x + src_w)
                            || (i == y + r && x <= j < x + c) {
                            src@[i - y]@[j - x]
                        } else {
                            old(self).pixels@[i]@[j]
                        },
                decreases src_w as usize - c,
            {
                proof {
                    assert(y + r < self.height);
                    assert(x + c < self.width);
                }
                let row_i: usize = y as usize + r;
                let col_i: usize = x as usize + c;
                let v: u32 = src[r][c];
                let ghost pre = self.pixels@;
                self.pixels[row_i][col_i] = v;
                proof {
                    assert forall|i: int|
                        0 <= i < self.pixels@.len() implies (#[trigger] self.pixels@[i])@.len()
                        == self.width as nat by {
                        if i != row_i as int {
                            assert(self.pixels@[i] == pre[i]);
                        }
                    }
                    assert forall|i: int, j: int|
                        #![trigger self.pixels@[i]@[j]]
                        0 <= i < self.pixels@.len() && 0 <= j < self.pixels@[i]@.len()
                            implies self.pixels@[i]@[j] == if (y <= i < y + r && x <= j < x
                            + src_w) || (i == y + r && x <= j < x + c + 1) {
                            src@[i - y]@[j - x]
                        } else {
                            old(self).pixels@[i]@[j]
                        } by {
                        if i != row_i as int {
                            assert(self.pixels@[i] == pre[i]);
                        } else if j != col_i as int {
                            assert(self.pixels@[i]@[j] == pre[i]@[j]);
                        }
                    }
                }
                c += 1;
            }
            r += 1;
        }
        let ghost result = overlaid(
            old(self)@,
            x as nat,
            y as nat,
            src_w as nat,
            src_h as nat,
            src@.map_values(|row: Vec<u32>| row@),
        );
        proof {
            let m = src@.map_values(|row: Vec<u32>| row@);
            assert(old(self)@.pixels.len() == old(self).pixels@.len());
            assert forall|i: int| 0 <= i < result.pixels.len() implies self@.pixels[i]
                =~= result.pixels[i] by {
                assert(self@.pixels[i] == self.pixels@[i]@);
                assert(old(self)@.pixels[i] == old(self).pixels@[i]@);
                assert forall|j: int| 0 <= j < result.pixels[i].len() implies self@.pixels[i][j]
                    == result.pixels[i][j] by {
                    if y <= i < y + src_h as nat && x <= j < x + src_w as nat {
                        assert(m[i - y] == src@[i - y]@);
                    }
                }
            }
            assert(self@.pixels =~~= result.pixels);
        }
    }
}

/// The painter's texture table: at most one texture per identifier, looked
/// up by identity.  Abstractly a map from identifier to texture contents.
pub struct TextureCache {
    entries: Vec<(TextureId, Texture)>,
}

impl View for TextureCache {
    type V = Map<TextureId, TextureView>;

    closed spec fn view(&self) -> Map<TextureId, TextureView> {
        entries_map(self.entries@)
    }
}

impl TextureCache {
    /// Identifiers are unique and every retained texture is well formed.
    pub closed spec fn wf(self) -> bool {
        unique_keys(self.entries@) && forall|i: int|
            0 <= i < self.entries@.len() ==> (#[trigger] self.entries@[i]).1.wf()
    }

    /// Every texture the cache retains is well formed.
    pub proof fn lemma_textures_wf(self, id: TextureId)
        requires
            self.wf(),
            self@.contains_key(id),
        ensures
            self@[id].wf(),
    {
        lemma_entries_map_contains(self.entries@, id);
        let i = choose|i: int| 0 <= i < self.entries@.len() && self.entries@[i].0 == id;
        lemma_entries_map_value(self.entries@, i);
    }

    /// An empty cache.
    pub fn new() -> (c: TextureCache)
        ensures
            c.wf(),
            c@ == Map::<TextureId, TextureView>::empty(),
    {
        TextureCache { entries: Vec::new() }
    }

    /// The position of `id` in the entry list, if any.
    fn find(&self, id: TextureId) -> (r: Option<usize>)
        ensures
            match r {
                Some(i) => i < self.entries@.len() && self.entries@[i as int].0 == id,
                None => forall|i: int| 0 <= i < self.entries@.len() ==> self.entries@[i].0 != id,
            },
    {
        let mut i: usize = 0;
        while i < self.entries.len()
            invariant
                i <= self.entries@.len(),
                forall|j: int| 0 <= j < i ==> self.entries@[j].0 != id,
            decreases self.entries@.len() - i,
        {
            if self.entries[i].0 == id {
                return Some(i);
            }
            i += 1;
        }
        None
    }

    /// Whether the cache holds a texture for `id`.
    pub fn contains(&self, id: TextureId) -> (r: bool)
        ensures
            r == self@.contains_key(id),
    {
        proof {
            lemma_entries_map_contains(self.entries@, id);
        }
        self.find(id).is_some()
    }

    /// Read-only lookup: the texture for `id`, or absence when `id` names no
    /// texture.
    pub fn get(&self, id: TextureId) -> (r: Option<&Texture>)
        requires
            self.wf(),
        ensures
            match r {
                Some(t) => self@.contains_key(id) && t@ == self@[id] && t.wf(),
                None => !self@.contains_key(id),
            },
    {
        proof {
            lemma_entries_map_contains(self.entries@, id);
        }
        match self.find(id) {
            Some(i) => {
                proof {
                    lemma_entries_map_value(self.entries@, i as int);
                }
                let e = &self.entries[i];
                Some(&e.1)
            },
            None => None,
        }
    }

    /// Remove the texture for `id` and drop it.  Returns whether `id` was
    /// present; an absent identifier leaves the cache untouched.
    pub fn remove(&mut self, id: TextureId) -> (r: bool)
        requires
            old(self).wf(),
        ensures
            final(self).wf(),
            r == old(self)@.contains_key(id),
            final(self)@ == old(self)@.remove(id),
            !r ==> final(self)@ == old(self)@,
    {
        proof {
            lemma_entries_map_contains(self.entries@, id);
        }
        match self.find(id) {
            Some(i) => {
                proof {
                    lemma_entries_map_remove(self.entries@, i as int);
                    lemma_unique_keys_remove(self.entries@, i as int);
                }
                let ghost pre = self.entries@;
                self.entries.remove(i);
                proof {
                    assert forall|j: int|
                        0 <= j < self.entries@.len() implies (#[trigger] self.entries@[j]).1.wf()
                        by {
                        assert(self.entries@[j] == pre.remove(i as int)[j]);
                        if j < i as int {
                            assert(pre.remove(i as int)[j] == pre[j]);
                        } else {
                            assert(pre.remove(i as int)[j] == pre[j + 1]);
                        }
                    }
                }
                true
            },
            None => {
                proof {
                    assert(!old(self)@.contains_key(id));
                    assert(old(self)@.remove(id) =~= old(self)@);
                }
                false
            },
        }
    }

    /// Create-on-first-write, update-in-place afterwards.  A vacant `id`
    /// receives a texture sized exactly to the delta; an occupied `id` has
    /// only the delta's sub-region rewritten, never its size.  Returns
    /// whether a texture was created (so the host can allocate the
    /// renderer-side resource), or the update error when the delta's region
    /// does not lie within the texture it addresses.
    pub fn upsert(&mut self, id: TextureId, delta: &ImageDelta) -> (r: Result<
        bool,
        PainterError,
    >)
        requires
            old(self).wf(),
            delta.wf(),
        ensures
            final(self).wf(),
            final(self)@ == upsert_map(old(self)@, id, *delta),
            r is Ok <==> upsert_fits(old(self)@, id, *delta),
            r matches Ok(created) ==> created == !old(self)@.contains_key(id),
            r matches Err(e) ==> e matches PainterError::TextureUpdateFailed(msg) && msg@
                == crate::error::region_out_of_bounds_msg(),
    {
        let (x, y) = match delta.pos {
            Some(p) => p,
            None => (0u32, 0u32),
        };
        proof {
            lemma_entries_map_contains(self.entries@, id);
        }
        match self.find(id) {
            Some(i) => {
                proof {
                    lemma_entries_map_value(self.entries@, i as int);
                }
                let fits = x as u64 + delta.width as u64 <= self.entries[i].1.width as u64
                    && y as u64 + delta.height as u64 <= self.entries[i].1.height as u64;
                if fits {
                    let ghost pre = self.entries@;
                    proof {
                        lemma_entries_map_remove(pre, i as int);
                        lemma_unique_keys_remove(pre, i as int);
                    }
                    let mut e = self.entries.remove(i);
                    e.1.write_region(x, y, delta.width, delta.height, &delta.pixels);
                    proof {
                        lemma_unique_keys_push(self.entries@, (id, e.1));
                        lemma_entries_map_push(self.entries@, (id, e.1));
                    }
                    let ghost mid = self.entries@;
                    self.entries.push(e);
                    proof {
                        assert forall|j: int|
                            0 <= j < self.entries@.len() implies (#[trigger] self.entries@[j]).1.wf() by {
                            if j < mid.len() {
                                assert(self.entries@[j] == pre.remove(i as int)[j]);
                                if j < i as int {
                                    assert(pre.remove(i as int)[j] == pre[j]);
                                } else {
                                    assert(pre.remove(i as int)[j] == pre[j + 1]);
                                }
                            }
                        }
                        assert(self@ =~= upsert_map(old(self)@, id, *delta));
                    }
                    Ok(false)
                } else {
                    proof {
                        assert(!upsert_fits(old(self)@, id, *delta));
                        assert(self@ =~= upsert_map(old(self)@, id, *delta));
                    }
                    Err(
                        PainterError::TextureUpdateFailed(
                            "texture update region out of bounds".to_owned(),
                        ),
                    )
                }
            },
            None => {
                let fits = x == 0 && y == 0;
                let mut t = Texture::blank(delta.width, delta.height);
                proof {
                    assert(fits == upsert_fits(old(self)@, id, *delta));
                }
                if fits {
                    t.write_region(x, y, delta.width, delta.height, &delta.pixels);
                }
                proof {
                    lemma_unique_keys_push(self.entries@, (id, t));
                    lemma_entries_map_push(self.entries@, (id, t));
                }
                let ghost mid = self.entries@;
                self.entries.push((id, t));
                proof {
                    assert forall|j: int|
                        0 <= j < self.entries@.len() implies (#[trigger] self.entries@[j]).1.wf()
                        by {
                        if j < mid.len() {
                            assert(self.entries@[j] == mid[j]);
                        }
                    }
                    assert(self@ =~= upsert_map(old(self)@, id, *delta));
                }
                if fits {
                    Ok(true)
                } else {
                    Err(
                        PainterError::TextureUpdateFailed(
                            "texture update region out of bounds".to_owned(),
                        ),
                    )
                }
            },
        }
    }
}

} // verus!
