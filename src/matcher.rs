//! Sliding-window template search, with optional mirroring, and the reduction
//! of its hits to the best one.

use vstd::prelude::*;

use find_subimage::{Backend, SubImageFinderState};

use crate::pixels::{channel_at, lemma_padded_channel, padded_pixels, PixelBuffer};

verus! {

/// A search backend of `find_subimage`, with its threshold and strides.
#[verifier::external_type_specification]
#[verifier::external_body]
pub struct ExBackend(Backend);

/// Whether the horizontal mirror of a template is searched as well.
#[derive(Copy, Clone, Debug, PartialEq, Eq, Structural)]
pub enum PatchType {
    NoFlip,
    FlipHorizontally,
}

/// A placement of a template in a source image, with its confidence.
///
/// `score` is `u32::MAX` minus the IEEE-754 bit pattern of the finder's
/// distance, which is never negative; so a higher score is a closer match and
/// an exact match scores `u32::MAX`.
#[derive(Copy, Clone, Debug, PartialEq, Eq, Structural)]
pub struct MatchResult {
    pub x: usize,
    pub y: usize,
    pub score: u32,
}

/// A character pose to search for, with its mirror when the pose is searched
/// in both orientations. The mirror is derived once and never changed.
#[derive(Clone, Debug)]
pub struct Template {
    pub image: PixelBuffer,
    pub mirror: Option<PixelBuffer>,
}

/// The settings of a scalar search: the backend itself, and what it holds as
/// plain values (the threshold as the bit pattern of its `f32`). The fields
/// are set together, once, from the same backend.
pub struct Finder {
    backend: Backend,
    threshold_bits: u32,
    step_x: usize,
    step_y: usize,
}

/// What the scalar finder reports, as `(x, y, distance bits)`, for a template
/// searched in a source image with the given threshold and strides.
pub uninterp spec fn subimage_hits(
    source: Seq<u8>,
    source_width: u32,
    source_height: u32,
    template: Seq<u8>,
    template_width: u32,
    template_height: u32,
    threshold_bits: u32,
    step_x: usize,
    step_y: usize,
) -> Seq<(usize, usize, u32)>;

/// The `tw x th` template equals the region of the source whose top-left
/// corner is `(x, y)`.
pub open spec fn region_matches(
    source: Seq<u8>,
    sw: int,
    template: Seq<u8>,
    tw: int,
    th: int,
    x: int,
    y: int,
) -> bool {
    forall|dx: int, dy: int, c: int|
        0 <= dx < tw && 0 <= dy < th && 0 <= c < 3 ==> #[trigger] channel_at(template, tw, dx, dy, c)
            == channel_at(source, sw, x + dx, y + dy, c)
}

/// Relies on the fields of `find_subimage::Backend::Scalar`: its threshold,
/// handed out as its bit pattern, and its two strides. Other backends give
/// `None`.
#[verifier::external_body]
fn scalar_settings(backend: &Backend) -> (r: Option<(u32, usize, usize)>) {
    match *backend {
        Backend::Scalar { threshold, step_x, step_y } => Some((threshold.to_bits(), step_x, step_y)),
        _ => None,
    }
}

impl Finder {
    /// Bit pattern of the threshold: the finder reports only distances below it.
    pub closed spec fn threshold_bits(&self) -> u32 {
        self.threshold_bits
    }

    /// Horizontal stride of the search.
    pub closed spec fn stride_x(&self) -> usize {
        self.step_x
    }

    /// Vertical stride of the search.
    pub closed spec fn stride_y(&self) -> usize {
        self.step_y
    }

    /// Both strides are at least one.
    pub open spec fn wf(&self) -> bool {
        self.stride_x() >= 1 && self.stride_y() >= 1
    }

    /// The threshold is a positive number (possibly infinite), so that an
    /// exact match, at distance zero, passes it.
    pub open spec fn positive_threshold(&self) -> bool {
        0 < self.threshold_bits() <= 0x7f80_0000
    }

    /// `(x, y)` lies on the search grid.
    pub open spec fn on_grid(&self, x: int, y: int) -> bool {
        x % (self.stride_x() as int) == 0 && y % (self.stride_y() as int) == 0
    }

    /// A finder for a scalar backend; `None` for another backend or a zero stride.
    pub fn new(backend: Backend) -> (r: Option<Finder>)
        ensures
            r matches Some(f) ==> f.wf(),
    {
        match scalar_settings(&backend) {
            Some((threshold_bits, step_x, step_y)) => {
                if step_x >= 1 && step_y >= 1 {
                    Some(Finder { backend, threshold_bits, step_x, step_y })
                } else {
                    None
                }
            },
            None => None,
        }
    }
}

/// Relies on `find_subimage::SubImageFinderState::find_subimage_positions`,
/// run on a fresh `SubImageFinderState::new()` (default pruning) set to the
/// finder's scalar backend, on two RGB images. From its source:
/// - it searches `x` in `0..source.width - template.width` by `step_x` and `y`
///   in `0..source.height - template.height` by `step_y`, so the template
///   must be non-empty and no larger than the source (the sizes are subtracted
///   unchecked) and the strides non-zero (`step_by` panics on zero);
/// - the distance is `sqrt(sum of squared channel differences / w / h) / 255`,
///   never negative or NaN, and exactly zero when, and only when, the region
///   equals the template; only distances below the threshold are kept, so
///   their bit patterns are below the threshold's;
/// - pruning sorts by distance and keeps the first entry, so an exact match on
///   the grid, which passes a positive threshold, leaves an entry at distance
///   zero.
/// The distance is handed out as its bit pattern.
#[verifier::external_body]
fn subimage_positions(finder: &Finder, source: &PixelBuffer, template: &PixelBuffer) -> (r: Vec<
    (usize, usize, u32),
>)
    requires
        finder.wf(),
        source.wf(),
        template.wf(),
        1 <= template.width <= source.width,
        1 <= template.height <= source.height,
    ensures
        r@ == subimage_hits(
            source.pixels@,
            source.width,
            source.height,
            template.pixels@,
            template.width,
            template.height,
            finder.threshold_bits(),
            finder.stride_x(),
            finder.stride_y(),
        ),
        forall|i: int|
            0 <= i < r@.len() ==> {
                let (x, y, bits) = #[trigger] r@[i];
                &&& x + template.width < source.width
                &&& y + template.height < source.height
                &&& finder.on_grid(x as int, y as int)
                &&& bits < finder.threshold_bits()
                &&& (bits == 0 <==> region_matches(
                    source.pixels@,
                    source.width as int,
                    template.pixels@,
                    template.width as int,
                    template.height as int,
                    x as int,
                    y as int,
                ))
            },
        finder.positive_threshold() && (exists|x: int, y: int|
            0 <= x && 0 <= y && x + template.width < source.width && y + template.height
                < source.height && finder.on_grid(x, y) && #[trigger] region_matches(
                source.pixels@,
                source.width as int,
                template.pixels@,
                template.width as int,
                template.height as int,
                x,
                y,
            )) ==> exists|i: int| 0 <= i < r@.len() && (#[trigger] r@[i]).2 == 0,
{
    let mut state = SubImageFinderState::new().with_backend(finder.backend);
    let found = state.find_subimage_positions(
        (&source.pixels, source.width as usize, source.height as usize),
        (&template.pixels, template.width as usize, template.height as usize),
        3,
    );
    found.iter().map(|p| (p.0, p.1, p.2.to_bits())).collect()
}

/// The match that the finder's raw entry `(x, y, distance bits)` stands for.
pub open spec fn match_of(raw: (usize, usize, u32)) -> MatchResult {
    MatchResult { x: raw.0, y: raw.1, score: (u32::MAX - raw.2) as u32 }
}

/// Position `(x, y)` places a non-empty `tw x th` template wholly inside an
/// `sw x sh` source.
pub open spec fn fits_inside(x: usize, y: usize, tw: u32, th: u32, sw: u32, sh: u32) -> bool {
    1 <= tw && 1 <= th && x + tw <= sw && y + th <= sh
}

/// The highest score in `s`, the last entry among equal scores; `None` when
/// `s` is empty.
pub open spec fn best_of(s: Seq<MatchResult>) -> Option<MatchResult>
    decreases s.len(),
{
    if s.len() == 0 {
        None
    } else {
        match best_of(s.drop_last()) {
            None => Some(s.last()),
            Some(b) => if s.last().score >= b.score {
                Some(s.last())
            } else {
                Some(b)
            },
        }
    }
}

/// What the finder reports for `template` in the `aw x ah` image `area`, as
/// matches.
pub open spec fn hits_as_matches(
    finder: Finder,
    area: Seq<u8>,
    aw: u32,
    ah: u32,
    template: PixelBuffer,
) -> Seq<MatchResult> {
    subimage_hits(
        area,
        aw,
        ah,
        template.pixels@,
        template.width,
        template.height,
        finder.threshold_bits(),
        finder.stride_x(),
        finder.stride_y(),
    ).map_values(|p: (usize, usize, u32)| match_of(p))
}

/// The template's hits followed by its mirror's, if it has one.
pub open spec fn template_hits(
    finder: Finder,
    area: Seq<u8>,
    aw: u32,
    ah: u32,
    template: Template,
) -> Seq<MatchResult> {
    hits_as_matches(finder, area, aw, ah, template.image) + match template.mirror {
        Some(m) => hits_as_matches(finder, area, aw, ah, m),
        None => Seq::empty(),
    }
}

/// The source can take a one-pixel margin on the right and at the bottom.
pub open spec fn can_pad(source: PixelBuffer) -> bool {
    &&& source.width < u32::MAX
    &&& source.height < u32::MAX
    &&& (source.width + 1) * (source.height + 1) * 3 <= usize::MAX
}

/// The template is non-empty and no larger than the source.
pub open spec fn placeable(source: PixelBuffer, template: Template) -> bool {
    &&& 1 <= template.image.width <= source.width
    &&& 1 <= template.image.height <= source.height
}

/// The matches that `find` reports: none for a template that cannot be placed;
/// otherwise the finder's hits of the template and of its mirror, searched in
/// the source with a black margin (so that the finder, which stops one
/// placement short of the far edges, reaches them).
pub open spec fn find_spec(finder: Finder, source: PixelBuffer, template: Template) -> Seq<
    MatchResult,
> {
    if !placeable(source, template) {
        Seq::empty()
    } else if can_pad(source) {
        template_hits(
            finder,
            padded_pixels(source.pixels@, source.width as int, source.height as int),
            (source.width + 1) as u32,
            (source.height + 1) as u32,
            template,
        )
    } else {
        template_hits(finder, source.pixels@, source.width, source.height, template)
    }
}

/// The match that `find_patch` reports: the best of `find_spec`.
pub open spec fn patch_spec(finder: Finder, source: PixelBuffer, template: Template) -> Option<
    MatchResult,
> {
    best_of(find_spec(finder, source, template))
}

/// The template, or its mirror, equals the region of `source` at `(x, y)`.
pub open spec fn exact_at(source: PixelBuffer, template: Template, x: int, y: int) -> bool {
    ||| region_matches(
        source.pixels@,
        source.width as int,
        template.image.pixels@,
        template.image.width as int,
        template.image.height as int,
        x,
        y,
    )
    ||| (template.mirror matches Some(m) && region_matches(
        source.pixels@,
        source.width as int,
        m.pixels@,
        template.image.width as int,
        template.image.height as int,
        x,
        y,
    ))
}

/// An exact match at `(x, y)` that the search reaches: the template fits
/// there and the point lies on the search grid.
pub open spec fn findable(finder: Finder, source: PixelBuffer, template: Template, x: int, y: int) -> bool {
    &&& 0 <= x
    &&& 0 <= y
    &&& placeable(source, template)
    &&& can_pad(source)
    &&& x + template.image.width <= source.width
    &&& y + template.image.height <= source.height
    &&& finder.on_grid(x, y)
    &&& exact_at(source, template, x, y)
}

/// The threshold is positive, and `(x0, y0)` is a reachable exact match and
/// the only placement at which the template or its mirror matches exactly.
pub open spec fn sole_exact_match(
    finder: Finder,
    source: PixelBuffer,
    template: Template,
    x0: usize,
    y0: usize,
) -> bool {
    &&& finder.positive_threshold()
    &&& findable(finder, source, template, x0 as int, y0 as int)
    &&& forall|x: int, y: int|
        0 <= x && 0 <= y && x + template.image.width <= source.width && y + template.image.height
            <= source.height && #[trigger] exact_at(source, template, x, y) ==> x == x0 && y == y0
}

/// The best of a sequence is one of its entries and scores at least as high
/// as every entry.
pub proof fn lemma_best_of(s: Seq<MatchResult>)
    ensures
        best_of(s) is None <==> s.len() == 0,
        best_of(s) matches Some(m) ==> (exists|i: int| 0 <= i < s.len() && s[i] == m) && (forall|
            j: int,
        | 0 <= j < s.len() ==> #[trigger] s[j].score <= m.score),
    decreases s.len(),
{
    if s.len() > 0 {
        let rest = s.drop_last();
        lemma_best_of(rest);
        let m = best_of(s)->0;
        assert forall|j: int| 0 <= j < s.len() implies #[trigger] s[j].score <= m.score by {
            if j < s.len() - 1 {
                assert(rest[j] == s[j]);
            }
        }
        if m != s.last() {
            let i = choose|i: int| 0 <= i < rest.len() && rest[i] == m;
            assert(s[i] == m);
        } else {
            assert(s[s.len() - 1] == m);
        }
    }
}

/// Entry `k` scores strictly higher than every other entry.
pub open spec fn is_unique_best(s: Seq<MatchResult>, k: int) -> bool {
    0 <= k < s.len() && forall|j: int| 0 <= j < s.len() && j != k ==> #[trigger] s[j].score < s[k].score
}

/// Some entry scores strictly higher than every other one.
pub open spec fn has_unique_best(s: Seq<MatchResult>) -> bool {
    exists|k: int| #[trigger] is_unique_best(s, k)
}

proof fn lemma_best_of_swap(a: Seq<MatchResult>, b: Seq<MatchResult>)
    requires
        has_unique_best(a + b),
    ensures
        best_of(a + b) == best_of(b + a),
{
    let s = a + b;
    let t = b + a;
    let k = choose|k: int| #[trigger] is_unique_best(s, k);
    lemma_best_of(s);
    lemma_best_of(t);
    let m = best_of(s)->0;
    let i = choose|i: int| 0 <= i < s.len() && s[i] == m;
    if i != k {
        assert(s[i].score < s[k].score);
        assert(s[k].score <= m.score);
    }
    let n = best_of(t)->0;
    let i2 = choose|i2: int| 0 <= i2 < t.len() && t[i2] == n;
    let kt = if k < a.len() {
        b.len() + k
    } else {
        k - a.len()
    };
    assert(t[kt] == s[k]);
    assert(t[kt].score <= n.score);
    let js = if i2 < b.len() {
        a.len() + i2
    } else {
        i2 - b.len()
    };
    assert(s[js] == t[i2]);
    if js != k {
        assert(s[js].score < s[k].score);
    }
}

/// Searching the mirror as well can only raise the best score: with the same
/// image, a template searched in both orientations finds a match whenever the
/// one searched as it is does, and scores at least as high.
pub proof fn lemma_mirror_search_raises_best(
    finder: Finder,
    source: PixelBuffer,
    plain: Template,
    flipping: Template,
)
    requires
        plain.mirror is None,
        flipping.mirror is Some,
        plain.image.width == flipping.image.width,
        plain.image.height == flipping.image.height,
        plain.image.pixels@ == flipping.image.pixels@,
    ensures
        patch_spec(finder, source, plain) matches Some(m) ==> (patch_spec(
            finder,
            source,
            flipping,
        ) matches Some(n) && n.score >= m.score),
{
    if placeable(source, plain) {
        let area = if can_pad(source) {
            padded_pixels(source.pixels@, source.width as int, source.height as int)
        } else {
            source.pixels@
        };
        let aw = if can_pad(source) {
            (source.width + 1) as u32
        } else {
            source.width
        };
        let ah = if can_pad(source) {
            (source.height + 1) as u32
        } else {
            source.height
        };
        let h1 = hits_as_matches(finder, area, aw, ah, plain.image);
        let h2 = hits_as_matches(finder, area, aw, ah, flipping.mirror->0);
        assert(hits_as_matches(finder, area, aw, ah, flipping.image) == h1);
        let a = find_spec(finder, source, plain);
        let s = find_spec(finder, source, flipping);
        assert(a =~= h1);
        assert(s =~= h1 + h2);
        lemma_best_of(a);
        lemma_best_of(s);
        if best_of(a) is Some {
            let m = best_of(a)->0;
            let i = choose|i: int| 0 <= i < a.len() && a[i] == m;
            assert(s[i] == a[i]);
        }
    }
}

/// Which orientation is searched first does not matter: swapping a template
/// with its mirror gives the same best match, when the best score is reached
/// by one placement only.
pub proof fn lemma_mirror_order_irrelevant(
    finder: Finder,
    source: PixelBuffer,
    t1: Template,
    t2: Template,
)
    requires
        t1.wf(),
        t2.wf(),
        t1.mirror is Some,
        t2.mirror is Some,
        t2.image.width == t1.image.width,
        t2.image.height == t1.image.height,
        t2.image.pixels@ == t1.mirror->0.pixels@,
        t2.mirror->0.pixels@ == t1.image.pixels@,
        has_unique_best(find_spec(finder, source, t1)),
    ensures
        patch_spec(finder, source, t1) == patch_spec(finder, source, t2),
{
    if placeable(source, t1) {
        let area = if can_pad(source) {
            padded_pixels(source.pixels@, source.width as int, source.height as int)
        } else {
            source.pixels@
        };
        let aw = if can_pad(source) {
            (source.width + 1) as u32
        } else {
            source.width
        };
        let ah = if can_pad(source) {
            (source.height + 1) as u32
        } else {
            source.height
        };
        let a = hits_as_matches(finder, area, aw, ah, t1.image);
        let b = hits_as_matches(finder, area, aw, ah, t1.mirror->0);
        assert(hits_as_matches(finder, area, aw, ah, t2.image) == b);
        assert(hits_as_matches(finder, area, aw, ah, t2.mirror->0) == a);
        assert(find_spec(finder, source, t1) == a + b);
        assert(find_spec(finder, source, t2) == b + a);
        lemma_best_of_swap(a, b);
    }
}

proof fn lemma_region_in_padding(source: PixelBuffer, tpl: Seq<u8>, tw: int, th: int, x: int, y: int)
    requires
        source.wf(),
        0 <= x,
        0 <= y,
        0 <= tw,
        0 <= th,
        x + tw <= source.width,
        y + th <= source.height,
    ensures
        region_matches(
            padded_pixels(source.pixels@, source.width as int, source.height as int),
            source.width + 1,
            tpl,
            tw,
            th,
            x,
            y,
        ) <==> region_matches(source.pixels@, source.width as int, tpl, tw, th, x, y),
{
    let w = source.width as int;
    let h = source.height as int;
    let padded = padded_pixels(source.pixels@, w, h);
    if region_matches(padded, w + 1, tpl, tw, th, x, y) {
        assert forall|dx: int, dy: int, c: int|
            0 <= dx < tw && 0 <= dy < th && 0 <= c < 3 implies #[trigger] channel_at(tpl, tw, dx, dy, c)
            == channel_at(source.pixels@, w, x + dx, y + dy, c) by {
            lemma_padded_channel(source.pixels@, w, h, x + dx, y + dy, c);
        }
    }
    if region_matches(source.pixels@, w, tpl, tw, th, x, y) {
        assert forall|dx: int, dy: int, c: int|
            0 <= dx < tw && 0 <= dy < th && 0 <= c < 3 implies #[trigger] channel_at(tpl, tw, dx, dy, c)
            == channel_at(padded, w + 1, x + dx, y + dy, c) by {
            lemma_padded_channel(source.pixels@, w, h, x + dx, y + dy, c);
        }
    }
}

/// Appends the matches that the finder's raw entries stand for.
fn append_matches(out: &mut Vec<MatchResult>, raw: &Vec<(usize, usize, u32)>)
    ensures
        final(out)@ == old(out)@ + raw@.map_values(|p: (usize, usize, u32)| match_of(p)),
{
    let ghost start = out@;
    let mut i: usize = 0;
    while i < raw.len()
        invariant
            i <= raw@.len(),
            out@ == start + raw@.subrange(0, i as int).map_values(
                |p: (usize, usize, u32)| match_of(p),
            ),
        decreases raw@.len() - i,
    {
        let p = raw[i];
        out.push(MatchResult { x: p.0, y: p.1, score: u32::MAX - p.2 });
        proof {
            assert(raw@.subrange(0, i + 1) == raw@.subrange(0, i as int).push(p));
        }
        i = i + 1;
    }
    proof {
        assert(raw@.subrange(0, i as int) == raw@);
    }
}

impl Template {
    /// The image is well formed, and the mirror, if any, is its reflection.
    pub open spec fn wf(&self) -> bool {
        &&& self.image.wf()
        &&& (self.mirror matches Some(m) ==> m.wf() && m.is_mirror_of(&self.image))
    }

    /// A template for `image`; with `FlipHorizontally` its mirror is derived here.
    pub fn new(image: PixelBuffer, patch_type: PatchType) -> (r: Template)
        requires
            image.wf(),
        ensures
            r.wf(),
            r.image.width == image.width,
            r.image.height == image.height,
            r.image.pixels@ == image.pixels@,
            r.mirror is Some <==> patch_type == PatchType::FlipHorizontally,
    {
        match patch_type {
            PatchType::NoFlip => Template { image, mirror: None },
            PatchType::FlipHorizontally => {
                let mirror = image.mirrored();
                Template { image, mirror: Some(mirror) }
            },
        }
    }
}

/// Placements of the template and of its mirror, if any, in `area`.
fn search_both(finder: &Finder, area: &PixelBuffer, template: &Template) -> (r: Vec<MatchResult>)
    requires
        finder.wf(),
        area.wf(),
        template.wf(),
        1 <= template.image.width <= area.width,
        1 <= template.image.height <= area.height,
    ensures
        r@ == template_hits(*finder, area.pixels@, area.width, area.height, *template),
        forall|i: int|
            0 <= i < r@.len() ==> {
                let m = #[trigger] r@[i];
                &&& m.x + template.image.width < area.width
                &&& m.y + template.image.height < area.height
                &&& finder.on_grid(m.x as int, m.y as int)
                &&& m.score > u32::MAX - finder.threshold_bits()
                &&& (m.score == u32::MAX ==> exact_at(*area, *template, m.x as int, m.y as int))
            },
        finder.positive_threshold() && (exists|x: int, y: int|
            0 <= x && 0 <= y && x + template.image.width < area.width && y + template.image.height
                < area.height && finder.on_grid(x, y) && #[trigger] exact_at(*area, *template, x, y))
            ==> exists|i: int| 0 <= i < r@.len() && (#[trigger] r@[i]).score == u32::MAX,
{
    let mut out: Vec<MatchResult> = Vec::new();
    let raw = subimage_positions(finder, area, &template.image);
    append_matches(&mut out, &raw);
    let ghost first = out@;
    let ghost mirror_raw: Seq<(usize, usize, u32)> = Seq::empty();
    match &template.mirror {
        Some(m) => {
            let raw_mirror = subimage_positions(finder, area, m);
            append_matches(&mut out, &raw_mirror);
            proof {
                mirror_raw = raw_mirror@;
            }
        },
        None => {},
    }
    proof {
        assert(out@ =~= first + mirror_raw.map_values(|p: (usize, usize, u32)| match_of(p)));
        assert(out@ =~= template_hits(*finder, area.pixels@, area.width, area.height, *template));
        assert forall|i: int| 0 <= i < out@.len() implies {
            let m = #[trigger] out@[i];
            &&& m.x + template.image.width < area.width
            &&& m.y + template.image.height < area.height
            &&& finder.on_grid(m.x as int, m.y as int)
            &&& m.score > u32::MAX - finder.threshold_bits()
            &&& (m.score == u32::MAX ==> exact_at(*area, *template, m.x as int, m.y as int))
        } by {
            if i < first.len() {
                assert(out@[i] == match_of(raw@[i]));
                let _ = raw@[i];
            } else {
                let k = i - first.len();
                assert(out@[i] == match_of(mirror_raw[k]));
                let _ = mirror_raw[k];
            }
        }
        if finder.positive_threshold() && (exists|x: int, y: int|
            0 <= x && 0 <= y && x + template.image.width < area.width && y + template.image.height
                < area.height && finder.on_grid(x, y) && #[trigger] exact_at(*area, *template, x, y)) {
            let (x, y) = choose|x: int, y: int|
                0 <= x && 0 <= y && x + template.image.width < area.width && y
                    + template.image.height < area.height && finder.on_grid(x, y)
                    && #[trigger] exact_at(*area, *template, x, y);
            if region_matches(
                area.pixels@,
                area.width as int,
                template.image.pixels@,
                template.image.width as int,
                template.image.height as int,
                x,
                y,
            ) {
                let k = choose|k: int| 0 <= k < raw@.len() && (#[trigger] raw@[k]).2 == 0;
                assert(out@[k] == match_of(raw@[k]));
            } else {
                let k = choose|k: int| 0 <= k < mirror_raw.len() && (#[trigger] mirror_raw[k]).2 == 0;
                assert(out@[first.len() + k] == match_of(mirror_raw[k]));
            }
        }
    }
    out
}

/// All placements of `template` (and of its mirror, if it has one) that the
/// finder reports in `source`, each inside the source and above the
/// threshold. A template that is empty, or larger than the source along
/// either axis, cannot be placed: the result is then empty. An exact match
/// that the search reaches is reported with the score `u32::MAX`.
pub fn find(finder: &Finder, source: &PixelBuffer, template: &Template) -> (r: Vec<MatchResult>)
    requires
        finder.wf(),
        source.wf(),
        template.wf(),
    ensures
        r@ == find_spec(*finder, *source, *template),
        !placeable(*source, *template) ==> r@.len() == 0,
        forall|i: int|
            0 <= i < r@.len() ==> {
                let m = #[trigger] r@[i];
                &&& fits_inside(
                    m.x,
                    m.y,
                    template.image.width,
                    template.image.height,
                    source.width,
                    source.height,
                )
                &&& m.score > u32::MAX - finder.threshold_bits()
                &&& (m.score == u32::MAX ==> exact_at(*source, *template, m.x as int, m.y as int))
            },
        finder.positive_threshold() && (exists|x: int, y: int|
            #[trigger] findable(*finder, *source, *template, x, y)) ==> exists|i: int|
            0 <= i < r@.len() && (#[trigger] r@[i]).score == u32::MAX,
{
    let tw = template.image.width;
    let th = template.image.height;
    if tw == 0 || th == 0 || tw > source.width || th > source.height {
        return Vec::new();
    }
    assert((source.width as u128 + 1) * (source.height as u128 + 1) * 3 <= 0x4_0000_0000_0000_0000u128 * 3)
        by (nonlinear_arith)
        requires
            source.width <= 0xffff_ffffu32,
            source.height <= 0xffff_ffffu32,
    ;
    let fits_margin = source.width < u32::MAX && source.height < u32::MAX && (source.width as u128
        + 1) * (source.height as u128 + 1) * 3 <= usize::MAX as u128;
    if fits_margin {
        // The finder stops one placement short of the right and bottom edges;
        // a blank margin lets it reach them without adding any placement.
        let margin = source.padded();
        let r = search_both(finder, &margin, template);
        proof {
            assert forall|i: int| 0 <= i < r@.len() implies {
                let m = #[trigger] r@[i];
                &&& fits_inside(m.x, m.y, tw, th, source.width, source.height)
                &&& m.score > u32::MAX - finder.threshold_bits()
                &&& (m.score == u32::MAX ==> exact_at(*source, *template, m.x as int, m.y as int))
            } by {
                let m = r@[i];
                lemma_region_in_padding(*source, template.image.pixels@, tw as int, th as int, m.x as int, m.y as int);
                if template.mirror is Some {
                    let mi = template.mirror->0;
                    lemma_region_in_padding(*source, mi.pixels@, tw as int, th as int, m.x as int, m.y as int);
                }
            }
            if finder.positive_threshold() && (exists|x: int, y: int|
                #[trigger] findable(*finder, *source, *template, x, y)) {
                let (x, y) = choose|x: int, y: int| #[trigger] findable(*finder, *source, *template, x, y);
                lemma_region_in_padding(*source, template.image.pixels@, tw as int, th as int, x, y);
                if template.mirror is Some {
                    let mi = template.mirror->0;
                    lemma_region_in_padding(*source, mi.pixels@, tw as int, th as int, x, y);
                }
                assert(exact_at(margin, *template, x, y));
            }
        }
        r
    } else {
        search_both(finder, source, template)
    }
}

/// The highest-scoring match; among equal scores the last one. `None` when
/// there is no match.
pub fn best_match(results: &Vec<MatchResult>) -> (r: Option<MatchResult>)
    ensures
        r == best_of(results@),
{
    let mut best: Option<MatchResult> = None;
    let mut i: usize = 0;
    while i < results.len()
        invariant
            i <= results@.len(),
            best == best_of(results@.subrange(0, i as int)),
        decreases results@.len() - i,
    {
        let m = results[i];
        proof {
            let next = results@.subrange(0, i + 1);
            assert(next.drop_last() =~= results@.subrange(0, i as int));
            assert(next.last() == m);
        }
        best = match best {
            None => Some(m),
            Some(b) => if m.score >= b.score {
                Some(m)
            } else {
                Some(b)
            },
        };
        i = i + 1;
    }
    proof {
        assert(results@.subrange(0, i as int) =~= results@);
    }
    best
}

/// The best placement of `template` (or its mirror) in `source`: the
/// highest-scoring entry of `find`, if any.
pub fn find_patch(finder: &Finder, source: &PixelBuffer, template: &Template) -> (r: Option<
    MatchResult,
>)
    requires
        finder.wf(),
        source.wf(),
        template.wf(),
    ensures
        r == patch_spec(*finder, *source, *template),
        r is None <==> find_spec(*finder, *source, *template).len() == 0,
        !placeable(*source, *template) ==> r is None,
        r matches Some(m) ==> {
            &&& fits_inside(
                m.x,
                m.y,
                template.image.width,
                template.image.height,
                source.width,
                source.height,
            )
            &&& m.score > u32::MAX - finder.threshold_bits()
            &&& (m.score == u32::MAX ==> exact_at(*source, *template, m.x as int, m.y as int))
        },
        finder.positive_threshold() && (exists|x: int, y: int|
            #[trigger] findable(*finder, *source, *template, x, y)) ==> (r matches Some(m)
            && m.score == u32::MAX),
        forall|x0: usize, y0: usize|
            #[trigger] sole_exact_match(*finder, *source, *template, x0, y0) ==> r == Some(
                MatchResult { x: x0, y: y0, score: u32::MAX },
            ),
{
    let results = find(finder, source, template);
    let r = best_match(&results);
    proof {
        lemma_best_of(results@);
        if let Some(m) = r {
            let k = choose|k: int| 0 <= k < results@.len() && results@[k] == m;
            assert(results@[k] == m);
            if finder.positive_threshold() && (exists|x: int, y: int|
                #[trigger] findable(*finder, *source, *template, x, y)) {
                let j = choose|j: int| 0 <= j < results@.len() && (#[trigger] results@[j]).score
                    == u32::MAX;
                assert(results@[j].score <= m.score);
            }
            assert forall|x0: usize, y0: usize|
                #[trigger] sole_exact_match(*finder, *source, *template, x0, y0) implies r == Some(
                MatchResult { x: x0, y: y0, score: u32::MAX },
            ) by {
                let (x1, y1) = choose|x: int, y: int| #[trigger] findable(*finder, *source, *template, x, y);
                let j = choose|j: int| 0 <= j < results@.len() && (#[trigger] results@[j]).score
                    == u32::MAX;
                assert(results@[j].score <= m.score);
                assert(exact_at(*source, *template, m.x as int, m.y as int));
            }
        } else {
            if finder.positive_threshold() && (exists|x: int, y: int|
                #[trigger] findable(*finder, *source, *template, x, y)) {
                let j = choose|j: int| 0 <= j < results@.len() && (#[trigger] results@[j]).score
                    == u32::MAX;
            }
            assert forall|x0: usize, y0: usize|
                #[trigger] sole_exact_match(*finder, *source, *template, x0, y0) implies r == Some(
                MatchResult { x: x0, y: y0, score: u32::MAX },
            ) by {
                assert(findable(*finder, *source, *template, x0 as int, y0 as int));
                let j = choose|j: int| 0 <= j < results@.len() && (#[trigger] results@[j]).score
                    == u32::MAX;
            }
        }
    }
    r
}

} // verus!
