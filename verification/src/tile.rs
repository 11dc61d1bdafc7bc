//! Tile layout engine: aspect-ratio-preserving fit/crop geometry, grid
//! sizing, and composition of snapshots into draw-ready tiles.

use vstd::prelude::*;

use crate::clock_pb;
use crate::clock_pb::{clone_opt_bytes, spec_opt_bytes};
use crate::snapshot_manager::{pb_zones_has_key, EndpointSnapshots, Snapshot};
use crate::text::{lemma_lex_total, lemma_lex_trans, lex_le, str_le};

verus! {

use vstd::multiset::Multiset;
use vstd::seq_lib::lemma_multiset_commutative;

/// What ratio of a tile's width and height is allocated to the person's
/// inset photo.
pub const PERSON_RATIO: u32 = 4;

/// An axis-aligned rectangle in pixel coordinates.
#[derive(Clone, Copy, Debug, PartialEq, Eq, Structural)]
pub struct Rect {
    pub x: u32,
    pub y: u32,
    pub width: u32,
    pub height: u32,
}

impl Rect {
    /// True when the rectangle has a drawable area.
    pub open spec fn spec_nondegenerate(&self) -> bool {
        self.width > 0 && self.height > 0
    }

    pub fn new(x: u32, y: u32, width: u32, height: u32) -> (r: Rect)
        ensures
            r == (Rect { x, y, width, height }),
    {
        Rect { x, y, width, height }
    }
}

/// The dimensions of the largest rectangle with the `cw : ch` aspect ratio
/// that fits inside a `sw` by `sh` rectangle.
pub open spec fn spec_fit_dims(sw: int, sh: int, cw: int, ch: int) -> (int, int) {
    if sw * ch > cw * sh {
        ((sh * cw) / ch, sh)
    } else {
        (sw, (sw * ch) / cw)
    }
}

/// A `w` by `h` rectangle has the `cw : ch` aspect ratio up to the rounding
/// that integer dimensions force.
pub open spec fn spec_ratio_close(w: int, h: int, cw: int, ch: int) -> bool {
    w * ch < (h + 1) * cw && h * cw < (w + 1) * ch
}

/// The fitted dimensions never exceed the enclosing rectangle and fill it
/// completely in the governing dimension.
pub proof fn lemma_fit_dims_bounds(sw: int, sh: int, cw: int, ch: int)
    requires
        sw > 0,
        sh > 0,
        cw > 0,
        ch > 0,
    ensures
        ({
            let (w, h) = spec_fit_dims(sw, sh, cw, ch);
            0 <= w <= sw && 0 <= h <= sh && (w == sw || h == sh)
        }),
{
    let (w, h) = spec_fit_dims(sw, sh, cw, ch);
    if sw * ch > cw * sh {
        assert(w == (sh * cw) / ch && h == sh);
        assert(0 <= w) by (nonlinear_arith)
            requires
                sh > 0,
                cw > 0,
                ch > 0,
                w == (sh * cw) / ch,
        ;
        assert(w <= sw) by (nonlinear_arith)
            requires
                sh * cw < sw * ch,
                ch > 0,
                sw > 0,
                w == (sh * cw) / ch,
        ;
    } else {
        assert(w == sw && h == (sw * ch) / cw);
        assert(0 <= h) by (nonlinear_arith)
            requires
                sw > 0,
                ch > 0,
                cw > 0,
                h == (sw * ch) / cw,
        ;
        assert(h <= sh) by (nonlinear_arith)
            requires
                sw * ch <= cw * sh,
                cw > 0,
                sh > 0,
                h == (sw * ch) / cw,
        ;
    }
}

/// The fitted dimensions match the requested aspect ratio as closely as
/// integer dimensions allow.
pub proof fn lemma_fit_dims_ratio(sw: int, sh: int, cw: int, ch: int)
    requires
        sw > 0,
        sh > 0,
        cw > 0,
        ch > 0,
    ensures
        ({
            let (w, h) = spec_fit_dims(sw, sh, cw, ch);
            spec_ratio_close(w, h, cw, ch)
        }),
{
    let (w, h) = spec_fit_dims(sw, sh, cw, ch);
    if sw * ch > cw * sh {
        assert(w * ch <= h * cw && h * cw < (w + 1) * ch) by (nonlinear_arith)
            requires
                ch > 0,
                w == (sh * cw) / ch,
                h == sh,
        ;
        assert(w * ch < (h + 1) * cw) by (nonlinear_arith)
            requires
                w * ch <= h * cw,
                cw > 0,
        ;
    } else {
        assert(h * cw <= w * ch && w * ch < (h + 1) * cw) by (nonlinear_arith)
            requires
                cw > 0,
                h == (sw * ch) / cw,
                w == sw,
        ;
        assert(h * cw < (w + 1) * ch) by (nonlinear_arith)
            requires
                h * cw <= w * ch,
                ch > 0,
        ;
    }
}

/// When the enclosing rectangle already has the requested aspect ratio, the
/// fit degenerates to the identity.
pub proof fn lemma_fit_dims_identity(sw: int, sh: int, cw: int, ch: int)
    requires
        sw > 0,
        sh > 0,
        cw > 0,
        ch > 0,
        sw * ch == sh * cw,
    ensures
        spec_fit_dims(sw, sh, cw, ch) == (sw, sh),
{
    assert(!(sw * ch > cw * sh));
    assert((sw * ch) / cw == sh) by (nonlinear_arith)
        requires
            cw > 0,
            sw * ch == sh * cw,
    ;
}

/// Compute the fitted dimensions executably; all intermediate products are
/// taken in 64 bits, so no overflow is possible.
fn fit_dims(sw: u32, sh: u32, cw: u32, ch: u32) -> (r: (u32, u32))
    requires
        sw > 0,
        sh > 0,
        cw > 0,
        ch > 0,
    ensures
        (r.0 as int, r.1 as int) == spec_fit_dims(sw as int, sh as int, cw as int, ch as int),
{
    proof {
        lemma_fit_dims_bounds(sw as int, sh as int, cw as int, ch as int);
    }
    let sw64 = sw as u64;
    let sh64 = sh as u64;
    let cw64 = cw as u64;
    let ch64 = ch as u64;
    proof {
        assert(sw64 * ch64 <= 0xffff_fffe_0000_0001 && cw64 * sh64 <= 0xffff_fffe_0000_0001
            && sh64 * cw64 <= 0xffff_fffe_0000_0001) by (nonlinear_arith)
            requires
                sw64 <= 0xffff_ffff,
                sh64 <= 0xffff_ffff,
                cw64 <= 0xffff_ffff,
                ch64 <= 0xffff_ffff,
        ;
    }
    if sw64 * ch64 > cw64 * sh64 {
        let w64 = (sh64 * cw64) / ch64;
        ((w64 as u32), sh)
    } else {
        let h64 = (sw64 * ch64) / cw64;
        (sw, (h64 as u32))
    }
}

/// Produce a rect with the same aspect ratio as `inner`, entirely contained
/// within `outer`'s dimensions, maximal in the governing dimension. The
/// resulting rect keeps `inner`'s top-left corner. A degenerate `outer` or
/// `inner` yields a zero-sized rect at `inner`'s position.
pub fn scale_inner_to_outer(outer: Rect, inner: Rect) -> (r: Rect)
    ensures
        r.x == inner.x && r.y == inner.y,
        outer.spec_nondegenerate() && inner.spec_nondegenerate() ==> (r.width as int,
            r.height as int) == spec_fit_dims(
            outer.width as int,
            outer.height as int,
            inner.width as int,
            inner.height as int,
        ),
        !(outer.spec_nondegenerate() && inner.spec_nondegenerate()) ==> r.width == 0 && r.height
            == 0,
{
    if outer.width == 0 || outer.height == 0 || inner.width == 0 || inner.height == 0 {
        return Rect { x: inner.x, y: inner.y, width: 0, height: 0 };
    }
    let (w, h) = fit_dims(outer.width, outer.height, inner.width, inner.height);
    Rect { x: inner.x, y: inner.y, width: w, height: h }
}

/// The sub-rectangle of `src` with the same aspect ratio as `clip`, of
/// maximal size, centered within `src`. Scaling the result to `clip`'s size
/// fills it exactly, with no letterboxing. Degenerate input rectangles yield
/// `src` unchanged (the identity crop).
pub fn clip_to_aspect_ratio(src: Rect, clip: Rect) -> (r: Rect)
    requires
        src.x + src.width <= u32::MAX,
        src.y + src.height <= u32::MAX,
    ensures
        !(src.spec_nondegenerate() && clip.spec_nondegenerate()) ==> r == src,
        src.spec_nondegenerate() && clip.spec_nondegenerate() ==> {
            let (w, h) = spec_fit_dims(
                src.width as int,
                src.height as int,
                clip.width as int,
                clip.height as int,
            );
            &&& r.width == w
            &&& r.height == h
            &&& r.x == src.x + (src.width - w) / 2
            &&& r.y == src.y + (src.height - h) / 2
        },
{
    if src.width == 0 || src.height == 0 || clip.width == 0 || clip.height == 0 {
        return src;
    }
    proof {
        lemma_fit_dims_bounds(
            src.width as int,
            src.height as int,
            clip.width as int,
            clip.height as int,
        );
    }
    let (w, h) = fit_dims(src.width, src.height, clip.width, clip.height);
    Rect { x: src.x + (src.width - w) / 2, y: src.y + (src.height - h) / 2, width: w, height: h }
}

/// A crop computed by `clip_to_aspect_ratio` lies entirely inside the source
/// rectangle.
pub proof fn lemma_clip_contained(src: Rect, clip: Rect, r: Rect)
    requires
        src.spec_nondegenerate(),
        clip.spec_nondegenerate(),
        ({
            let (w, h) = spec_fit_dims(
                src.width as int,
                src.height as int,
                clip.width as int,
                clip.height as int,
            );
            r.width == w && r.height == h && r.x == src.x + (src.width - w) / 2 && r.y == src.y + (
            src.height - h) / 2
        }),
    ensures
        src.x <= r.x,
        src.y <= r.y,
        r.x + r.width <= src.x + src.width,
        r.y + r.height <= src.y + src.height,
{
    lemma_fit_dims_bounds(
        src.width as int,
        src.height as int,
        clip.width as int,
        clip.height as int,
    );
}

/// When source and target aspect ratios are exactly equal, the crop
/// degenerates to the identity: the source comes back unchanged.
pub proof fn lemma_clip_identity(src: Rect, clip: Rect, r: Rect)
    requires
        src.spec_nondegenerate(),
        clip.spec_nondegenerate(),
        src.width * clip.height == src.height * clip.width,
        ({
            let (w, h) = spec_fit_dims(
                src.width as int,
                src.height as int,
                clip.width as int,
                clip.height as int,
            );
            r.width == w && r.height == h && r.x == src.x + (src.width - w) / 2 && r.y == src.y + (
            src.height - h) / 2
        }),
    ensures
        r == src,
{
    lemma_fit_dims_identity(
        src.width as int,
        src.height as int,
        clip.width as int,
        clip.height as int,
    );
}

/// Center a `width` by `height` box within `outer`.
pub fn centered_within(outer: Rect, width: u32, height: u32) -> (r: Rect)
    requires
        width <= outer.width,
        height <= outer.height,
        outer.x + outer.width <= u32::MAX,
        outer.y + outer.height <= u32::MAX,
    ensures
        r.width == width,
        r.height == height,
        r.x == outer.x + (outer.width - width) / 2,
        r.y == outer.y + (outer.height - height) / 2,
        outer.x <= r.x && r.x + r.width <= outer.x + outer.width,
        outer.y <= r.y && r.y + r.height <= outer.y + outer.height,
{
    Rect {
        x: outer.x + (outer.width - width) / 2,
        y: outer.y + (outer.height - height) / 2,
        width,
        height,
    }
}

/// The source region of a tile's background photo: the maximal centered
/// crop of the texture matching the tile's aspect ratio, so that scaling
/// it to the tile fills it exactly with no letterboxing.
pub fn background_src_rect(texture_w: u32, texture_h: u32, dest: Rect) -> (r: Rect)
    ensures
        ({
            let tex = Rect { x: 0, y: 0, width: texture_w, height: texture_h };
            if tex.spec_nondegenerate() && dest.spec_nondegenerate() {
                let (w, h) = spec_fit_dims(
                    texture_w as int,
                    texture_h as int,
                    dest.width as int,
                    dest.height as int,
                );
                r.width == w && r.height == h && r.x == (texture_w - w) / 2 && r.y == (texture_h
                    - h) / 2
            } else {
                r == tex
            }
        }),
{
    clip_to_aspect_ratio(Rect { x: 0, y: 0, width: texture_w, height: texture_h }, dest)
}

/// Where a person's inset photo lands within their tile: fitted
/// unstretched into a box a `PERSON_RATIO`th of the tile's size, then
/// centered on the tile.
pub fn person_dest_rect(texture_w: u32, texture_h: u32, dest: Rect) -> (r: Rect)
    requires
        dest.x + dest.width <= u32::MAX,
        dest.y + dest.height <= u32::MAX,
    ensures
        r.width <= dest.width / PERSON_RATIO,
        r.height <= dest.height / PERSON_RATIO,
        r.x == dest.x + (dest.width - r.width) / 2,
        r.y == dest.y + (dest.height - r.height) / 2,
        texture_w > 0 && texture_h > 0 && dest.width / PERSON_RATIO > 0 && dest.height
            / PERSON_RATIO > 0 ==> (r.width as int, r.height as int) == spec_fit_dims(
            (dest.width / PERSON_RATIO) as int,
            (dest.height / PERSON_RATIO) as int,
            texture_w as int,
            texture_h as int,
        ),
{
    let scaled = Rect { x: 0, y: 0, width: dest.width / PERSON_RATIO, height: dest.height / PERSON_RATIO };
    let fitted = scale_inner_to_outer(scaled, Rect { x: 0, y: 0, width: texture_w, height: texture_h });
    proof {
        if scaled.spec_nondegenerate() && texture_w > 0 && texture_h > 0 {
            lemma_fit_dims_bounds(
                scaled.width as int,
                scaled.height as int,
                texture_w as int,
                texture_h as int,
            );
        }
        assert(dest.width / 4 <= dest.width && dest.height / 4 <= dest.height) by (nonlinear_arith);
    }
    centered_within(dest, fitted.width, fitted.height)
}

/// One tile's draw sources: the person's own photo for the inset and
/// their zone's photo for the background. No zone photo means a blank
/// background.
#[derive(Debug)]
pub struct Tile {
    pub person_texture: Option<Vec<u8>>,
    pub background_texture: Option<Vec<u8>>,
}

impl Tile {
    /// Compose one person's tile sources.
    pub fn new(person: &clock_pb::Person, zone: Option<&clock_pb::Zone>) -> (r: Tile)
        ensures
            spec_opt_bytes(r.person_texture) == spec_opt_bytes(person.photo_data),
            match zone {
                Some(z) => spec_opt_bytes(r.background_texture) == spec_opt_bytes(z.photo_data),
                None => r.background_texture is None,
            },
    {
        Tile {
            person_texture: clone_opt_bytes(&person.photo_data),
            background_texture: match zone {
                Some(z) => clone_opt_bytes(&z.photo_data),
                None => None,
            },
        }
    }
}

/// The zone a person is linked to within one snapshot, if its record is
/// present.
fn zone_for_person<'a>(person: &clock_pb::Person, snapshot: &'a Snapshot) -> (r: Option<
    &'a clock_pb::Zone,
>)
    ensures
        match person.zone_id {
            Some(zid) => match r {
                Some(z) => exists|j: int|
                    0 <= j < snapshot.zones@.len() && (#[trigger] snapshot.zones@[j]).0@ == zid@
                        && *z == snapshot.zones@[j].1,
                None => !pb_zones_has_key(snapshot.zones@, zid@),
            },
            None => r is None,
        },
{
    match &person.zone_id {
        None => None,
        Some(zid) => {
            let n = snapshot.zones.len();
            let mut j: usize = 0;
            while j < n
                invariant
                    n == snapshot.zones@.len(),
                    j <= n,
                    person.zone_id is Some && person.zone_id.unwrap()@ == zid@,
                    forall|j2: int|
                        0 <= j2 < j ==> (#[trigger] snapshot.zones@[j2]).0@ != zid@,
                decreases n - j,
            {
                if crate::text::str_eq_str(snapshot.zones[j].0.as_str(), zid.as_str()) {
                    proof {
                        assert(0 <= j < snapshot.zones@.len() && (#[trigger] snapshot.zones@[
                        j as int]).0@ == zid@);
                    }
                    return Some(&snapshot.zones[j].1);
                }
                j += 1;
            }
            None
        },
    }
}

/// Pairs of a person and their zone's record, sorted by person id.
pub open spec fn spec_pairs_sorted(s: Seq<(clock_pb::Person, Option<clock_pb::Zone>)>) -> bool {
    forall|i: int, j: int|
        0 <= i < j < s.len() ==> lex_le((#[trigger] s[i]).0.id@, (#[trigger] s[j]).0.id@)
}

/// Inserting preserves the multiset of elements.
proof fn lemma_insert_to_multiset<T>(s: Seq<T>, k: int, x: T)
    requires
        0 <= k <= s.len(),
    ensures
        s.insert(k, x).to_multiset() == s.to_multiset().insert(x),
{
    broadcast use vstd::seq_lib::group_to_multiset_ensures;
    broadcast use vstd::multiset::group_multiset_axioms;

    assert(s.insert(k, x) =~= s.take(k) + (seq![x] + s.skip(k)));
    lemma_multiset_commutative(s.take(k), seq![x] + s.skip(k));
    lemma_multiset_commutative(seq![x], s.skip(k));
    assert(s =~= s.take(k) + s.skip(k));
    lemma_multiset_commutative(s.take(k), s.skip(k));
    assert(seq![x] =~= Seq::<T>::empty().push(x));
    assert(Seq::<T>::empty().push(x).to_multiset() =~= Seq::<T>::empty().to_multiset().insert(x));
    assert(s.insert(k, x).to_multiset() =~= s.to_multiset().insert(x));
}

/// Pair sequences with equal element multisets read as equal multisets.
proof fn lemma_pair_views_multiset(
    a: Seq<(clock_pb::Person, Option<clock_pb::Zone>)>,
    b: Seq<(clock_pb::Person, Option<clock_pb::Zone>)>,
)
    requires
        a.to_multiset() == b.to_multiset(),
    ensures
        spec_pair_views(a).to_multiset() == spec_pair_views(b).to_multiset(),
    decreases a.len(),
{
    broadcast use vstd::seq_lib::group_to_multiset_ensures;
    broadcast use vstd::multiset::group_multiset_axioms;

    if a.len() == 0 {
        assert(b.to_multiset().len() == 0);
        assert(b.len() == 0);
        assert(spec_pair_views(a) =~= Seq::<PairView>::empty());
        assert(spec_pair_views(b) =~= Seq::<PairView>::empty());
    } else {
        let x = a[0];
        assert(a.to_multiset().count(x) > 0) by {
            assert(a.contains(x));
        }
        assert(b.to_multiset().count(x) > 0);
        assert(b.contains(x));
        let j = choose|j: int| 0 <= j < b.len() && b[j] == x;
        let a1 = a.remove(0);
        let b1 = b.remove(j);
        assert(a1.to_multiset() =~= a.to_multiset().remove(x));
        assert(b1.to_multiset() =~= b.to_multiset().remove(x));
        assert(a1.to_multiset() == b1.to_multiset());
        lemma_pair_views_multiset(a1, b1);
        let fa = spec_pair_views(a);
        let fb = spec_pair_views(b);
        let fx = spec_pair_view(x);
        assert(fa.remove(0) =~= spec_pair_views(a1));
        assert(fb.remove(j) =~= spec_pair_views(b1));
        assert(fa[0] == fx && fb[j] == fx);
        assert(fa.remove(0).to_multiset() =~= fa.to_multiset().remove(fx));
        assert(fb.remove(j).to_multiset() =~= fb.to_multiset().remove(fx));
        assert(fa.to_multiset().remove(fx) == fb.to_multiset().remove(fx));
        assert(fa.to_multiset().count(fx) > 0) by {
            assert(fa.contains(fx));
        }
        assert(fb.to_multiset().count(fx) > 0) by {
            assert(fb.contains(fx));
        }
        assert forall|v: PairView| fa.to_multiset().count(v) == fb.to_multiset().count(v) by {
            let ra = fa.to_multiset().remove(fx);
            let rb = fb.to_multiset().remove(fx);
            if v == fx {
                assert(ra.count(v) == fa.to_multiset().count(v) - 1);
                assert(rb.count(v) == fb.to_multiset().count(v) - 1);
            } else {
                assert(ra.count(v) == fa.to_multiset().count(v));
                assert(rb.count(v) == fb.to_multiset().count(v));
            }
        }
        assert(fa.to_multiset() =~= fb.to_multiset());
    }
}

/// Sort (person, zone) pairs by person id: a stable, reproducible order
/// whatever order the endpoints delivered the people in.
fn sort_pairs(pairs: Vec<(clock_pb::Person, Option<clock_pb::Zone>)>) -> (r: Vec<
    (clock_pb::Person, Option<clock_pb::Zone>),
>)
    ensures
        spec_pairs_sorted(r@),
        r@.to_multiset() == pairs@.to_multiset(),
        r@.len() == pairs@.len(),
{
    broadcast use vstd::seq_lib::group_to_multiset_ensures;
    broadcast use vstd::multiset::group_multiset_axioms;

    let ghost pairs0 = pairs@;
    let mut pending = pairs;
    let mut out: Vec<(clock_pb::Person, Option<clock_pb::Zone>)> = Vec::new();
    proof {
        assert(out@.to_multiset().add(pending@.to_multiset()) =~= pairs0.to_multiset());
    }
    while pending.len() > 0
        invariant
            pairs@ == pairs0,
            out@.to_multiset().add(pending@.to_multiset()) == pairs0.to_multiset(),
            out@.len() + pending@.len() == pairs0.len(),
            spec_pairs_sorted(out@),
        decreases pending@.len(),
    {
        broadcast use vstd::seq_lib::group_to_multiset_ensures;
        broadcast use vstd::multiset::group_multiset_axioms;

        let ghost out0 = out@;
        let ghost pend0 = pending@;
        let item = pending.remove(0);
        proof {
            assert(item == pend0[0]);
            assert(pend0.remove(0).to_multiset() =~= pend0.to_multiset().remove(pend0[0]));
            assert(pend0.to_multiset().count(pend0[0]) > 0) by {
                assert(pend0.contains(pend0[0]));
            }
        }
        let n = out.len();
        let mut kpos: usize = 0;
        while kpos < n && str_le(out[kpos].0.id.as_str(), item.0.id.as_str())
            invariant
                n == out@.len(),
                kpos <= n,
                forall|j: int| 0 <= j < kpos ==> lex_le((#[trigger] out@[j]).0.id@, item.0.id@),
            decreases n - kpos,
        {
            kpos += 1;
        }
        let ghost kp = kpos as int;
        out.insert(kpos, item);
        proof {
            lemma_insert_to_multiset(out0, kp, item);
            assert(out@.to_multiset().add(pending@.to_multiset()) =~= pairs0.to_multiset());
            assert forall|i: int, j: int| 0 <= i < j < out@.len() implies lex_le(
                (#[trigger] out@[i]).0.id@,
                (#[trigger] out@[j]).0.id@,
            ) by {
                if kp < out0.len() {
                    lemma_lex_total(out0[kp].0.id@, item.0.id@);
                }
                if i < kp && j == kp {
                    assert(out@[i] == out0[i]);
                } else if i == kp && j > kp {
                    assert(out@[j] == out0[j - 1]);
                    if j - 1 > kp - 1 && kp < out0.len() {
                        if kp < j - 1 {
                            lemma_lex_trans(item.0.id@, out0[kp].0.id@, out0[j - 1].0.id@);
                        }
                    }
                } else if i < kp && j > kp {
                    assert(out@[i] == out0[i] && out@[j] == out0[j - 1]);
                } else if i > kp && j > kp {
                    assert(out@[i] == out0[i - 1] && out@[j] == out0[j - 1]);
                } else if i < kp && j < kp {
                    assert(out@[i] == out0[i] && out@[j] == out0[j]);
                }
            }
        }
    }
    proof {
        assert(pending@.to_multiset() =~= Multiset::<(clock_pb::Person, Option<clock_pb::Zone>)>::empty());
        assert(out@.to_multiset().add(Multiset::empty()) =~= out@.to_multiset());
        assert(out@.to_multiset().len() == out@.len());
        assert(pairs0.to_multiset().len() == pairs0.len());
    }
    out
}

/// Does this (person, zone-record) pair read as person `i` of the
/// snapshot, paired with the zone record their link names — or with
/// nothing, when they are unlinked or their zone was not transmitted?
pub open spec fn spec_pair_reads_as(
    pair: (clock_pb::Person, Option<clock_pb::Zone>),
    snapshot: Snapshot,
    i: int,
) -> bool {
    &&& pair.0.id@ == snapshot.people@[i].id@
    &&& clock_pb::spec_opt_str(pair.0.zone_id) == clock_pb::spec_opt_str(
        snapshot.people@[i].zone_id,
    )
    &&& spec_opt_bytes(pair.0.photo_data) == spec_opt_bytes(snapshot.people@[i].photo_data)
    &&& match snapshot.people@[i].zone_id {
        Some(zid) => match pair.1 {
            Some(z) => exists|j: int|
                0 <= j < snapshot.zones@.len() && (#[trigger] snapshot.zones@[j]).0@ == zid@
                    && z.id@ == snapshot.zones@[j].1.id@ && spec_opt_bytes(z.photo_data)
                    == spec_opt_bytes(snapshot.zones@[j].1.photo_data),
            None => !pb_zones_has_key(snapshot.zones@, zid@),
        },
        None => pair.1 is None,
    }
}

/// Does the tile carry exactly the pair's photos: the person's own as the
/// inset, the zone's as the background (blank when there is none)?
pub open spec fn spec_tile_matches(
    t: Tile,
    pair: (clock_pb::Person, Option<clock_pb::Zone>),
) -> bool {
    &&& spec_opt_bytes(t.person_texture) == spec_opt_bytes(pair.0.photo_data)
    &&& match pair.1 {
        Some(z) => spec_opt_bytes(t.background_texture) == spec_opt_bytes(z.photo_data),
        None => t.background_texture is None,
    }
}

/// The readable content of a (person, zone-record) pair: the person's id,
/// link, and photo, and the zone's id and photo when a record is present.
pub type PairView = (Seq<char>, Option<Seq<char>>, Option<Seq<u8>>, Option<
    (Seq<char>, Option<Seq<u8>>),
>);

/// What each of the pairs reads as, in order.
pub open spec fn spec_pair_views(ps: Seq<(clock_pb::Person, Option<clock_pb::Zone>)>) -> Seq<
    PairView,
> {
    ps.map_values(|p: (clock_pb::Person, Option<clock_pb::Zone>)| spec_pair_view(p))
}

/// What the pair reads as.
pub open spec fn spec_pair_view(pair: (clock_pb::Person, Option<clock_pb::Zone>)) -> PairView {
    (
        pair.0.id@,
        clock_pb::spec_opt_str(pair.0.zone_id),
        spec_opt_bytes(pair.0.photo_data),
        match pair.1 {
            Some(z) => Some((z.id@, spec_opt_bytes(z.photo_data))),
            None => None,
        },
    )
}

/// What the pair for person `i` of the snapshot must read as: the person's
/// own fields, and their linked zone's record as the zone map holds it.
pub open spec fn spec_snapshot_pair_view(s: Snapshot, i: int) -> PairView {
    (
        s.people@[i].id@,
        clock_pb::spec_opt_str(s.people@[i].zone_id),
        spec_opt_bytes(s.people@[i].photo_data),
        match s.people@[i].zone_id {
            Some(zid) => match crate::snapshot_manager::pb_zones_lookup(s.zones@, zid@) {
                Some(z) => Some((z.id@, spec_opt_bytes(z.photo_data))),
                None => None,
            },
            None => None,
        },
    )
}

/// All the snapshot's pair views, in the snapshot's own order.
pub open spec fn spec_snapshot_pairs(s: Snapshot) -> Seq<PairView> {
    Seq::new(s.people@.len(), |i: int| spec_snapshot_pair_view(s, i))
}

/// A well-formed zone map pins each pair's reading completely.
proof fn lemma_pair_view_determined(
    pair: (clock_pb::Person, Option<clock_pb::Zone>),
    s: Snapshot,
    i: int,
)
    requires
        0 <= i < s.people@.len(),
        crate::snapshot_manager::pb_zones_wf(s.zones@),
        spec_pair_reads_as(pair, s, i),
    ensures
        spec_pair_view(pair) == spec_snapshot_pair_view(s, i),
{
    match s.people@[i].zone_id {
        Some(zid) => {
            match pair.1 {
                Some(z) => {
                    let j = choose|j: int|
                        0 <= j < s.zones@.len() && (#[trigger] s.zones@[j]).0@ == zid@ && z.id@
                            == s.zones@[j].1.id@ && spec_opt_bytes(z.photo_data) == spec_opt_bytes(
                            s.zones@[j].1.photo_data,
                        );
                    crate::snapshot_manager::lemma_pb_lookup_unique(s.zones@, zid@, j);
                },
                None => {
                    crate::snapshot_manager::lemma_pb_lookup_has_key(s.zones@, zid@);
                },
            }
        },
        None => {},
    }
}

/// Each person of the snapshot paired with the zone record their link
/// names, in the snapshot's own order.
pub fn people_with_zones(snapshot: &Snapshot) -> (r: Vec<
    (clock_pb::Person, Option<clock_pb::Zone>),
>)
    ensures
        r@.len() == snapshot.people@.len(),
        forall|i: int| 0 <= i < r@.len() ==> spec_pair_reads_as(#[trigger] r@[i], *snapshot, i),
        crate::snapshot_manager::pb_zones_wf(snapshot.zones@) ==> spec_pair_views(r@)
            == spec_snapshot_pairs(*snapshot),
{
    let mut pairs: Vec<(clock_pb::Person, Option<clock_pb::Zone>)> = Vec::new();
    let n = snapshot.people.len();
    let mut i: usize = 0;
    while i < n
        invariant
            n == snapshot.people@.len(),
            i <= n,
            pairs@.len() == i,
            forall|k: int|
                0 <= k < i ==> spec_pair_reads_as(#[trigger] pairs@[k], *snapshot, k),
        decreases n - i,
    {
        let person = snapshot.people[i].duplicate();
        let zone = match zone_for_person(&snapshot.people[i], snapshot) {
            Some(z) => Some(z.duplicate()),
            None => None,
        };
        pairs.push((person, zone));
        i += 1;
    }
    proof {
        if crate::snapshot_manager::pb_zones_wf(snapshot.zones@) {
            assert forall|k: int| 0 <= k < pairs@.len() implies spec_pair_views(pairs@)[k]
                == spec_snapshot_pairs(*snapshot)[k] by {
                lemma_pair_view_determined(pairs@[k], *snapshot, k);
            }
            assert(spec_pair_views(pairs@) =~= spec_snapshot_pairs(*snapshot));
        }
    }
    pairs
}

/// One tile per pair, in order.
pub fn pairs_to_tiles(pairs: &Vec<(clock_pb::Person, Option<clock_pb::Zone>)>) -> (r: Vec<Tile>)
    ensures
        r@.len() == pairs@.len(),
        forall|k: int| 0 <= k < r@.len() ==> spec_tile_matches(#[trigger] r@[k], pairs@[k]),
{
    let mut tiles: Vec<Tile> = Vec::new();
    let m = pairs.len();
    let mut k: usize = 0;
    while k < m
        invariant
            m == pairs@.len(),
            k <= m,
            tiles@.len() == k,
            forall|j: int| 0 <= j < k ==> spec_tile_matches(#[trigger] tiles@[j], pairs@[j]),
        decreases m - k,
    {
        tiles.push(
            Tile::new(
                &pairs[k].0,
                match &pairs[k].1 {
                    Some(z) => Some(z),
                    None => None,
                },
            ),
        );
        k += 1;
    }
    tiles
}

/// The pair reads as some person of the snapshot.
pub open spec fn spec_pair_from(
    pair: (clock_pb::Person, Option<clock_pb::Zone>),
    snapshot: Snapshot,
) -> bool {
    exists|i: int|
        0 <= i < snapshot.people@.len() && #[trigger] spec_pair_reads_as(pair, snapshot, i)
}

/// The pair reads as some person of one of the snapshots.
pub open spec fn spec_pair_from_any(
    pair: (clock_pb::Person, Option<clock_pb::Zone>),
    snapshots: Seq<Snapshot>,
) -> bool {
    exists|si: int, i: int|
        0 <= si < snapshots.len() && 0 <= i < snapshots[si].people@.len()
            && #[trigger] spec_pair_reads_as(pair, snapshots[si], i)
}

/// The tiles were built from some sorted arrangement `ps` of the
/// snapshot's people: tile by tile the photos match, and every pair reads
/// as one of the snapshot's people with their zone.
pub open spec fn spec_tiles_from(
    tiles: Seq<Tile>,
    ps: Seq<(clock_pb::Person, Option<clock_pb::Zone>)>,
    snapshot: Snapshot,
) -> bool {
    &&& ps.len() == tiles.len()
    &&& spec_pairs_sorted(ps)
    &&& (forall|k: int| 0 <= k < ps.len() ==> spec_tile_matches(tiles[k], #[trigger] ps[k]))
    &&& (forall|k: int| 0 <= k < ps.len() ==> #[trigger] spec_pair_from(ps[k], snapshot))
    &&& (crate::snapshot_manager::pb_zones_wf(snapshot.zones@) ==> spec_pair_views(
        ps,
    ).to_multiset() == spec_snapshot_pairs(snapshot).to_multiset())
}

/// One snapshot's tiles: its people sorted by person id for a stable
/// layout, each composed with their zone's photo as background.
pub fn snapshot_to_tiles(snapshot: &Snapshot) -> (r: Vec<Tile>)
    ensures
        r@.len() == snapshot.people@.len(),
        exists|ps: Seq<(clock_pb::Person, Option<clock_pb::Zone>)>|
            #[trigger] spec_tiles_from(r@, ps, *snapshot),
{
    broadcast use vstd::seq_lib::group_to_multiset_ensures;

    let pairs = people_with_zones(snapshot);
    let ghost pairs0 = pairs@;
    let sorted = sort_pairs(pairs);
    let tiles = pairs_to_tiles(&sorted);
    proof {
        let ps = sorted@;
        assert forall|k: int| 0 <= k < ps.len() implies #[trigger] spec_pair_from(
            ps[k],
            *snapshot,
        ) by {
            assert(ps.to_multiset().count(ps[k]) > 0) by {
                assert(ps.contains(ps[k]));
            }
            assert(pairs0.to_multiset().count(ps[k]) > 0);
            assert(pairs0.contains(ps[k]));
            let i = choose|i: int| 0 <= i < pairs0.len() && pairs0[i] == ps[k];
            assert(spec_pair_reads_as(ps[k], *snapshot, i));
        }
        if crate::snapshot_manager::pb_zones_wf(snapshot.zones@) {
            lemma_pair_views_multiset(ps, pairs0);
        }
        assert(spec_tiles_from(tiles@, ps, *snapshot));
    }
    tiles
}

/// The number of tiles a collection of snapshots yields: one per person.
pub open spec fn spec_total_people(ss: Seq<Snapshot>) -> int
    decreases ss.len(),
{
    if ss.len() == 0 {
        0
    } else {
        spec_total_people(ss.drop_last()) + ss.last().people@.len()
    }
}

/// All the snapshots' pair views, flattened in order.
pub open spec fn spec_all_pairs(ss: Seq<Snapshot>) -> Seq<PairView>
    decreases ss.len(),
{
    if ss.len() == 0 {
        Seq::empty()
    } else {
        spec_all_pairs(ss.drop_last()) + spec_snapshot_pairs(ss.last())
    }
}

/// Every snapshot's zone map is well-formed.
pub open spec fn spec_all_zones_wf(ss: Seq<Snapshot>) -> bool {
    forall|si: int|
        0 <= si < ss.len() ==> crate::snapshot_manager::pb_zones_wf((#[trigger] ss[si]).zones@)
}

/// The tiles were built from some sorted arrangement `ps` of all the
/// snapshots' people together.
pub open spec fn spec_tiles_from_all(
    tiles: Seq<Tile>,
    ps: Seq<(clock_pb::Person, Option<clock_pb::Zone>)>,
    snapshots: Seq<Snapshot>,
) -> bool {
    &&& ps.len() == tiles.len()
    &&& spec_pairs_sorted(ps)
    &&& (forall|k: int| 0 <= k < ps.len() ==> spec_tile_matches(tiles[k], #[trigger] ps[k]))
    &&& (forall|k: int| 0 <= k < ps.len() ==> #[trigger] spec_pair_from_any(ps[k], snapshots))
    &&& (spec_all_zones_wf(snapshots) ==> spec_pair_views(ps).to_multiset() == spec_all_pairs(
        snapshots,
    ).to_multiset())
}

/// All snapshots' tiles as one collection: every endpoint's people
/// flattened into one sequence and sorted by person id, so the layout is
/// reproducible whatever order the endpoints delivered them in.
pub fn snapshots_to_tiles(snapshots: &EndpointSnapshots) -> (r: Vec<Tile>)
    ensures
        r@.len() == spec_total_people(snapshots@),
        exists|ps: Seq<(clock_pb::Person, Option<clock_pb::Zone>)>|
            #[trigger] spec_tiles_from_all(r@, ps, snapshots@),
{
    broadcast use vstd::seq_lib::group_to_multiset_ensures;

    let mut pairs: Vec<(clock_pb::Person, Option<clock_pb::Zone>)> = Vec::new();
    let n = snapshots.len();
    let mut s: usize = 0;
    proof {
        assert(snapshots@.take(0) =~= Seq::<Snapshot>::empty());
    }
    while s < n
        invariant
            n == snapshots@.len(),
            s <= n,
            pairs@.len() == spec_total_people(snapshots@.take(s as int)),
            spec_all_zones_wf(snapshots@) ==> spec_pair_views(pairs@) == spec_all_pairs(
                snapshots@.take(s as int),
            ),
            forall|k: int|
                0 <= k < pairs@.len() ==> #[trigger] spec_pair_from_any(pairs@[k], snapshots@),
        decreases n - s,
    {
        let mut chunk = people_with_zones(&snapshots[s]);
        let ghost chunk0 = chunk@;
        let ghost pairs_start = pairs@;
        proof {
            assert(snapshots@.take(s as int + 1).drop_last() =~= snapshots@.take(s as int));
            assert(snapshots@.take(s as int + 1).last() == snapshots@[s as int]);
            assert(chunk0.take(0) =~= Seq::<(clock_pb::Person, Option<clock_pb::Zone>)>::empty());
            assert(pairs@ + chunk0.take(0) =~= pairs@);
        }
        let mut c: usize = 0;
        let clen = chunk.len();
        while c < clen
            invariant
                clen == chunk0.len(),
                c <= clen,
                chunk@ == chunk0.skip(c as int),
                pairs@.len() == spec_total_people(snapshots@.take(s as int)) + c,
                s < n,
                n == snapshots@.len(),
                chunk0.len() == snapshots@[s as int].people@.len(),
                pairs@ == pairs_start + chunk0.take(c as int),
                spec_all_zones_wf(snapshots@) ==> spec_pair_views(pairs_start) == spec_all_pairs(
                    snapshots@.take(s as int),
                ),
                spec_all_zones_wf(snapshots@) ==> spec_pair_views(chunk0) == spec_snapshot_pairs(
                    snapshots@[s as int],
                ),
                forall|i: int|
                    0 <= i < chunk0.len() ==> spec_pair_reads_as(
                        #[trigger] chunk0[i],
                        snapshots@[s as int],
                        i,
                    ),
                forall|k: int|
                    0 <= k < pairs@.len() ==> #[trigger] spec_pair_from_any(
                        pairs@[k],
                        snapshots@,
                    ),
            decreases clen - c,
        {
            let ghost c0 = c;
            let ghost pairs_pre = pairs@;
            let p = chunk.remove(0);
            proof {
                assert(p == chunk0[c0 as int]);
                assert(chunk0.skip(c0 as int).remove(0) =~= chunk0.skip(c0 as int + 1));
                assert(spec_pair_reads_as(p, snapshots@[s as int], c0 as int));
                assert(spec_pair_from_any(p, snapshots@));
            }
            pairs.push(p);
            proof {
                assert(pairs@ =~= pairs_start + chunk0.take(c0 as int + 1));
                assert forall|k: int| 0 <= k < pairs@.len() implies #[trigger] spec_pair_from_any(
                    pairs@[k],
                    snapshots@,
                ) by {
                    if k < pairs_pre.len() {
                        assert(pairs@[k] == pairs_pre[k]);
                        assert(spec_pair_from_any(pairs_pre[k], snapshots@));
                    } else {
                        assert(pairs@[k] == p);
                    }
                }
            }
            c += 1;
        }
        proof {
            assert(chunk0.skip(0) =~= chunk0);
            assert(chunk0.take(clen as int) =~= chunk0);
            if spec_all_zones_wf(snapshots@) {
                assert(spec_pair_views(pairs_start + chunk0) =~= spec_pair_views(pairs_start)
                    + spec_pair_views(chunk0));
                assert(spec_pair_views(pairs@) == spec_all_pairs(snapshots@.take(s as int + 1)));
            }
        }
        s += 1;
    }
    proof {
        assert(snapshots@.take(n as int) =~= snapshots@);
    }
    let ghost pairs0 = pairs@;
    let sorted = sort_pairs(pairs);
    let tiles = pairs_to_tiles(&sorted);
    proof {
        let ps = sorted@;
        assert forall|k: int| 0 <= k < ps.len() implies #[trigger] spec_pair_from_any(
            ps[k],
            snapshots@,
        ) by {
            assert(ps.to_multiset().count(ps[k]) > 0) by {
                assert(ps.contains(ps[k]));
            }
            assert(pairs0.to_multiset().count(ps[k]) > 0);
            assert(pairs0.contains(ps[k]));
            let i = choose|i: int| 0 <= i < pairs0.len() && pairs0[i] == ps[k];
            assert(spec_pair_from_any(pairs0[i], snapshots@));
        }
        if spec_all_zones_wf(snapshots@) {
            lemma_pair_views_multiset(ps, pairs0);
            assert(snapshots@.take(n as int) =~= snapshots@);
        }
        assert(spec_tiles_from_all(tiles@, ps, snapshots@));
    }
    tiles
}

/// `k` is the ceiling of the square root of `n`.
pub open spec fn spec_is_ceil_sqrt(n: int, k: int) -> bool {
    k >= 0 && k * k >= n && (k == 0 || (k - 1) * (k - 1) < n)
}

/// The smallest `k` with `k * k >= n`.
fn ceil_sqrt(n: usize) -> (k: usize)
    ensures
        spec_is_ceil_sqrt(n as int, k as int),
        k <= n,
{
    let n128 = n as u128;
    let mut k: u64 = 0;
    let mut kk: u128 = 0;
    while kk < n128
        invariant
            n128 == n as int,
            kk == (k as int) * (k as int),
            k == 0 || (k - 1) * (k - 1) < n128,
            k <= 0x1_0000_0000u64,
            k == 0 || k <= n128,
        decreases 0x1_0000_0001u64 - k,
    {
        proof {
            assert(k < 0x1_0000_0000u64) by (nonlinear_arith)
                requires
                    kk == (k as int) * (k as int),
                    kk < n128,
                    n128 <= 0xffff_ffff_ffff_ffffu64,
                    k >= 0,
            ;
            assert(k + 1 <= n128 && (k + 1) * (k + 1) == kk + 2 * (k as int) + 1)
                by (nonlinear_arith)
                requires
                    kk == (k as int) * (k as int),
                    kk < n128,
                    k >= 0,
            ;
        }
        kk = kk + 2 * (k as u128) + 1;
        k = k + 1;
    }
    k as usize
}

/// Grid dimensions for `n` tiles: `cols` is the ceiling of the square root
/// of `n` and `rows` only as many as needed to fit all tiles, each at least
/// one so an empty collection still yields a well-formed (blank) grid.
pub fn grid_dims(n: usize) -> (r: (usize, usize))
    ensures
        r.0 >= 1 && r.1 >= 1,
        n == 0 ==> r.0 == 1 && r.1 == 1,
        n > 0 ==> spec_is_ceil_sqrt(n as int, r.0 as int),
        n > 0 ==> r.1 == (n - 1) as int / r.0 as int + 1,
        n <= r.0 * r.1,
        n > 0 ==> (r.1 - 1) * r.0 < n,
{
    if n == 0 {
        return (1, 1);
    }
    let cols = ceil_sqrt(n);
    assert(cols >= 1);
    let rows = (n - 1) / cols + 1;
    proof {
        assert((rows - 1) * cols <= n - 1 && (n - 1) < rows * cols) by (nonlinear_arith)
            requires
                cols >= 1,
                n >= 1,
                rows == (n - 1) as int / cols as int + 1,
        ;
    }
    (cols, rows)
}

/// The uniform grid cell for tile index `i`, as (x, y, width, height).
pub open spec fn spec_tile_rect(i: int, cols: int, rows: int, w: int, h: int) -> (int, int, int, int) {
    ((i % cols) * (w / cols), (i / cols) * (h / rows), w / cols, h / rows)
}

/// The draw rectangle for tile `i` in a `cols` by `rows` grid over a
/// `surface_w` by `surface_h` surface. Tiles keep the uniform cell size;
/// a partially filled final row is not stretched.
pub fn tile_rect(i: usize, cols: usize, rows: usize, surface_w: u32, surface_h: u32) -> (r: Rect)
    requires
        1 <= cols,
        1 <= rows,
        i < cols * rows,
    ensures
        (r.x as int, r.y as int, r.width as int, r.height as int) == spec_tile_rect(
            i as int,
            cols as int,
            rows as int,
            surface_w as int,
            surface_h as int,
        ),
        r.x + r.width <= surface_w,
        r.y + r.height <= surface_h,
{
    let col = (i % cols) as u64;
    let row = (i / cols) as u64;
    proof {
        assert((i as int) / (cols as int) < (rows as int)) by (nonlinear_arith)
            requires
                1 <= cols,
                (i as int) < (cols as int) * (rows as int),
                i >= 0,
        ;
    }
    let tw = (surface_w as u64) / (cols as u64);
    let th = (surface_h as u64) / (rows as u64);
    proof {
        assert(col * tw + tw <= surface_w && tw <= surface_w) by (nonlinear_arith)
            requires
                1 <= cols,
                col < cols,
                tw == (surface_w as u64) as int / (cols as u64) as int,
                surface_w >= 0,
        ;
        assert(row * th + th <= surface_h && th <= surface_h) by (nonlinear_arith)
            requires
                1 <= rows,
                row < rows,
                th == (surface_h as u64) as int / (rows as u64) as int,
                surface_h >= 0,
        ;
    }
    Rect {
        x: (col * tw) as u32,
        y: (row * th) as u32,
        width: tw as u32,
        height: th as u32,
    }
}

/// Rectangles (given as (x, y, width, height)) that share no interior point.
pub open spec fn spec_cells_disjoint(a: (int, int, int, int), b: (int, int, int, int)) -> bool {
    a.0 + a.2 <= b.0 || b.0 + b.2 <= a.0 || a.1 + a.3 <= b.1 || b.1 + b.3 <= a.1
}

/// Distinct tile indices map to non-overlapping grid cells.
pub proof fn lemma_tile_rects_disjoint(i: int, j: int, cols: int, rows: int, w: int, h: int)
    requires
        1 <= cols,
        1 <= rows,
        0 <= i < cols * rows,
        0 <= j < cols * rows,
        i != j,
        w >= 0,
        h >= 0,
    ensures
        spec_cells_disjoint(
            spec_tile_rect(i, cols, rows, w, h),
            spec_tile_rect(j, cols, rows, w, h),
        ),
{
    let tw = w / cols;
    let th = h / rows;
    let ci = i % cols;
    let cj = j % cols;
    let ri = i / cols;
    let rj = j / cols;
    assert(ci >= 0 && cj >= 0 && ri >= 0 && rj >= 0 && ci < cols && cj < cols) by (nonlinear_arith)
        requires
            1 <= cols,
            0 <= i,
            0 <= j,
            ci == i % cols,
            cj == j % cols,
            ri == i / cols,
            rj == j / cols,
    ;
    assert(tw >= 0 && th >= 0) by (nonlinear_arith)
        requires
            w >= 0,
            h >= 0,
            1 <= cols,
            1 <= rows,
            tw == w / cols,
            th == h / rows,
    ;
    assert(!(ci == cj && ri == rj)) by (nonlinear_arith)
        requires
            1 <= cols,
            i != j,
            ci == i % cols,
            cj == j % cols,
            ri == i / cols,
            rj == j / cols,
    ;
    if ci != cj {
        assert(ci < cj ==> (ci + 1) * tw <= cj * tw) by (nonlinear_arith)
            requires
                tw >= 0,
        ;
        assert(cj < ci ==> (cj + 1) * tw <= ci * tw) by (nonlinear_arith)
            requires
                tw >= 0,
        ;
        assert(ci * tw + tw == (ci + 1) * tw && cj * tw + tw == (cj + 1) * tw) by (nonlinear_arith);
    } else {
        assert(ri < rj ==> (ri + 1) * th <= rj * th) by (nonlinear_arith)
            requires
                th >= 0,
        ;
        assert(rj < ri ==> (rj + 1) * th <= ri * th) by (nonlinear_arith)
            requires
                th >= 0,
        ;
        assert(ri * th + th == (ri + 1) * th && rj * th + th == (rj + 1) * th) by (nonlinear_arith);
    }
}

/// Every point of the surface that lies within the first `cols` cell widths
/// and `rows` cell heights is covered by some grid cell; with a full grid
/// the cells' union therefore covers the whole surface up to the integer
/// division remainder at the right and bottom edges.
pub proof fn lemma_grid_covers_point(px: int, py: int, cols: int, rows: int, w: int, h: int)
    requires
        1 <= cols,
        1 <= rows,
        w / cols >= 1,
        h / rows >= 1,
        0 <= px < cols * (w / cols),
        0 <= py < rows * (h / rows),
    ensures
        ({
            let i = (py / (h / rows)) * cols + px / (w / cols);
            let cell = spec_tile_rect(i, cols, rows, w, h);
            &&& 0 <= i < cols * rows
            &&& cell.0 <= px < cell.0 + cell.2
            &&& cell.1 <= py < cell.1 + cell.3
        }),
{
    let tw = w / cols;
    let th = h / rows;
    let c = px / tw;
    let r = py / th;
    let i = r * cols + c;
    assert(0 <= c < cols && c * tw <= px < (c + 1) * tw) by (nonlinear_arith)
        requires
            tw >= 1,
            0 <= px < cols * tw,
            c == px / tw,
    ;
    assert(0 <= r < rows && r * th <= py < (r + 1) * th) by (nonlinear_arith)
        requires
            th >= 1,
            0 <= py < rows * th,
            r == py / th,
    ;
    assert(0 <= i < cols * rows && i % cols == c && i / cols == r) by (nonlinear_arith)
        requires
            0 <= c < cols,
            0 <= r < rows,
            i == r * cols + c,
    ;
    assert(c * tw + tw == (c + 1) * tw && r * th + th == (r + 1) * th) by (nonlinear_arith);
}

} // verus!
