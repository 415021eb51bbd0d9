//! The playable variants of a video.
//!
//! Frame rates are carried through and never looked at: `F` is whatever type
//! the caller keeps them in.

use vstd::prelude::*;

use crate::player_config;
use crate::player_config::{HlsEntry, PlayerConfig, ProgressiveEntry};
use crate::text;

verus! {

/// How a variant is delivered.
#[derive(Debug, PartialEq, Eq, Clone, Copy, Structural)]
pub enum VariantKind {
    Video,
    Audio,
    Adaptive,
}

/// One way to fetch a video.
#[derive(Debug, PartialEq)]
pub struct MediaVariant<F> {
    pub format_id: String,
    pub kind: VariantKind,
    pub ext: String,
    pub width: Option<u32>,
    pub height: Option<u32>,
    pub fps: Option<F>,
    pub url: String,
}

/// The variants of a video.
#[derive(Debug, PartialEq)]
pub struct MediaVariantsResponse<F> {
    pub variants: Vec<MediaVariant<F>>,
}

/// The model of a [`MediaVariant`].
pub struct VariantModel<F> {
    pub format_id: Seq<char>,
    pub kind: VariantKind,
    pub ext: Seq<char>,
    pub width: Option<u32>,
    pub height: Option<u32>,
    pub fps: Option<F>,
    pub url: Seq<char>,
}

impl<F> View for MediaVariant<F> {
    type V = VariantModel<F>;

    open spec fn view(&self) -> VariantModel<F> {
        VariantModel {
            format_id: self.format_id@,
            kind: self.kind,
            ext: self.ext@,
            width: self.width,
            height: self.height,
            fps: self.fps,
            url: self.url@,
        }
    }
}

/// The models of a list of variants.
pub open spec fn models<F>(variants: Seq<MediaVariant<F>>) -> Seq<VariantModel<F>> {
    variants.map_values(|v: MediaVariant<F>| v@)
}

// ── Order ────────────────────────────────────────────────────────────────────

/// Where a variant stands in the list: audio first, then video by height,
/// then adaptive streams.
pub open spec fn sort_key<F>(v: VariantModel<F>) -> (int, int) {
    match v.kind {
        VariantKind::Audio => (0, 0),
        VariantKind::Video => (
            1,
            match v.height {
                Some(height) => height as int,
                None => 0,
            },
        ),
        VariantKind::Adaptive => (2, 0),
    }
}

/// The order of sort keys.
pub open spec fn key_le(a: (int, int), b: (int, int)) -> bool {
    a.0 < b.0 || (a.0 == b.0 && a.1 <= b.1)
}

/// The variants are in ascending order of their keys.
pub open spec fn is_sorted<F>(variants: Seq<VariantModel<F>>) -> bool {
    forall|i: int, j: int|
        0 <= i < j < variants.len() ==> key_le(
            sort_key(#[trigger] variants[i]),
            sort_key(#[trigger] variants[j]),
        )
}

/// Tells the variants with a given key.
pub open spec fn has_key<F>(key: (int, int)) -> spec_fn(VariantModel<F>) -> bool {
    |v: VariantModel<F>| sort_key(v) == key
}

/// `after` holds the variants of `before` in ascending order of their keys,
/// those with equal keys in the order that they had.
pub open spec fn is_stable_order<F>(
    before: Seq<VariantModel<F>>,
    after: Seq<VariantModel<F>>,
) -> bool {
    &&& is_sorted(after)
    &&& forall|key: (int, int)| #[trigger]
        after.filter(has_key::<F>(key)) == before.filter(has_key::<F>(key))
}

/// The last variant of a list that ends in one with the key is kept at the
/// end, and nothing else changes.
proof fn lemma_filter_last<F>(s: Seq<VariantModel<F>>, key: (int, int))
    requires
        s.len() > 0,
    ensures
        s.filter(has_key::<F>(key)) == if sort_key(s.last()) == key {
            s.drop_last().filter(has_key::<F>(key)).push(s.last())
        } else {
            s.drop_last().filter(has_key::<F>(key))
        },
{
    reveal(Seq::filter);
}

/// There is one stable order: the list of variants does not depend on how it
/// was sorted.
pub proof fn law_stable_order_is_unique<F>(
    before: Seq<VariantModel<F>>,
    a: Seq<VariantModel<F>>,
    b: Seq<VariantModel<F>>,
)
    requires
        is_stable_order(before, a),
        is_stable_order(before, b),
    ensures
        a == b,
{
    assert forall|key: (int, int)| #[trigger]
        a.filter(has_key::<F>(key)) == b.filter(has_key::<F>(key)) by {
        assert(a.filter(has_key::<F>(key)) == before.filter(has_key::<F>(key)));
    }
    lemma_sorted_with_same_parts(a, b);
}

/// A list that ends in a variant with a key holds such a variant.
proof fn lemma_ends_below<F>(a: Seq<VariantModel<F>>, b: Seq<VariantModel<F>>)
    requires
        a.len() > 0,
        is_sorted(b),
        forall|key: (int, int)| #[trigger]
            a.filter(has_key::<F>(key)) == b.filter(has_key::<F>(key)),
    ensures
        b.len() > 0,
        key_le(sort_key(a.last()), sort_key(b.last())),
{
    let key = sort_key(a.last());
    lemma_filter_last(a, key);
    let part = b.filter(has_key::<F>(key));
    assert(part == a.filter(has_key::<F>(key)));
    assert(part.len() > 0);
    b.lemma_filter_pred(has_key::<F>(key), 0);
    assert(part.contains(part[0]));
    b.lemma_filter_contains_rev(has_key::<F>(key), part[0]);
    let i = choose|i: int| 0 <= i < b.len() && b[i] == part[0];
    assert(sort_key(b[i]) == key);
}

proof fn lemma_sorted_with_same_parts<F>(a: Seq<VariantModel<F>>, b: Seq<VariantModel<F>>)
    requires
        is_sorted(a),
        is_sorted(b),
        forall|key: (int, int)| #[trigger]
            a.filter(has_key::<F>(key)) == b.filter(has_key::<F>(key)),
    ensures
        a == b,
    decreases a.len(),
{
    if a.len() == 0 {
        if b.len() > 0 {
            lemma_ends_below(b, a);
        }
        assert(a =~= b);
    } else {
        lemma_ends_below(a, b);
        lemma_ends_below(b, a);
        let key = sort_key(a.last());
        assert(sort_key(b.last()) == key);
        lemma_filter_last(a, key);
        lemma_filter_last(b, key);
        assert(a.filter(has_key::<F>(key)).last() == b.filter(has_key::<F>(key)).last());
        assert forall|k: (int, int)| #[trigger]
            a.drop_last().filter(has_key::<F>(k)) == b.drop_last().filter(has_key::<F>(k)) by {
            lemma_filter_last(a, k);
            lemma_filter_last(b, k);
            assert(a.filter(has_key::<F>(k)) == b.filter(has_key::<F>(k)));
            if k == key {
                let xs = a.drop_last().filter(has_key::<F>(k));
                let ys = b.drop_last().filter(has_key::<F>(k));
                assert(xs =~= xs.push(a.last()).drop_last());
                assert(ys =~= ys.push(b.last()).drop_last());
            }
        }
        lemma_sorted_with_same_parts(a.drop_last(), b.drop_last());
        assert(a =~= a.drop_last().push(a.last()));
        assert(b =~= b.drop_last().push(b.last()));
    }
}

/// Sorting neither loses nor adds a variant.
pub proof fn law_stable_order_is_a_permutation<F>(
    before: Seq<VariantModel<F>>,
    after: Seq<VariantModel<F>>,
)
    requires
        is_stable_order(before, after),
    ensures
        after.to_multiset() == before.to_multiset(),
{
    assert forall|v: VariantModel<F>| #[trigger]
        after.to_multiset().count(v) == before.to_multiset().count(v) by {
        let key = sort_key(v);
        lemma_count_by_key(after, v);
        lemma_count_by_key(before, v);
        assert(after.filter(has_key::<F>(key)) == before.filter(has_key::<F>(key)));
    }
    assert(after.to_multiset() =~= before.to_multiset());
}

/// Sorting keeps what a list holds.
pub proof fn lemma_same_members<F>(before: Seq<VariantModel<F>>, after: Seq<VariantModel<F>>)
    requires
        is_stable_order(before, after),
    ensures
        forall|v: VariantModel<F>| #[trigger] after.contains(v) <==> before.contains(v),
{
    law_stable_order_is_a_permutation(before, after);
    before.to_multiset_ensures();
    after.to_multiset_ensures();
    assert forall|v: VariantModel<F>| #[trigger] after.contains(v) <==> before.contains(v) by {
        assert(after.contains(v) <==> after.to_multiset().count(v) > 0);
        assert(before.contains(v) <==> before.to_multiset().count(v) > 0);
    }
}

/// A variant occurs in a list as often as among those with its key.
proof fn lemma_count_by_key<F>(s: Seq<VariantModel<F>>, v: VariantModel<F>)
    ensures
        s.to_multiset().count(v) == s.filter(has_key::<F>(sort_key(v))).to_multiset().count(v),
    decreases s.len(),
{
    let p = has_key::<F>(sort_key(v));
    if s.len() == 0 {
        assert(s.filter(p) =~= s) by {
            s.lemma_filter_len(p);
        }
    } else {
        let rest = s.drop_last();
        lemma_count_by_key(rest, v);
        lemma_filter_last(s, sort_key(v));
        assert(s =~= rest.push(s.last()));
        rest.to_multiset_ensures();
        rest.filter(p).to_multiset_ensures();
        assert(s.to_multiset() == rest.to_multiset().insert(s.last()));
        if sort_key(s.last()) == sort_key(v) {
            assert(s.filter(p).to_multiset() == rest.filter(p).to_multiset().insert(s.last()));
        }
    }
}

/// Behind the last variant that may stand in front of a new one, the new one
/// keeps the order stable.
proof fn lemma_insert_keeps_order<F>(
    before: Seq<VariantModel<F>>,
    sorted: Seq<VariantModel<F>>,
    v: VariantModel<F>,
    at: int,
)
    requires
        is_stable_order(before, sorted),
        0 <= at <= sorted.len(),
        forall|i: int| 0 <= i < at ==> key_le(sort_key(#[trigger] sorted[i]), sort_key(v)),
        forall|i: int| at <= i < sorted.len() ==> !key_le(sort_key(#[trigger] sorted[i]), sort_key(v)),
    ensures
        is_stable_order(before.push(v), sorted.insert(at, v)),
{
    let after = sorted.insert(at, v);
    let front = sorted.take(at);
    let back = sorted.skip(at);
    assert(after =~= front + seq![v] + back);
    assert(sorted =~= front + back);
    assert forall|key: (int, int)| #[trigger]
        after.filter(has_key::<F>(key)) == before.push(v).filter(has_key::<F>(key)) by {
        let p = has_key::<F>(key);
        Seq::filter_distributes_over_add(front + seq![v], back, p);
        Seq::filter_distributes_over_add(front, seq![v], p);
        Seq::filter_distributes_over_add(front, back, p);
        lemma_filter_last(before.push(v), key);
        assert(before.push(v).drop_last() =~= before);
        lemma_filter_last(seq![v], key);
        assert(seq![v].drop_last() =~= Seq::<VariantModel<F>>::empty());
        Seq::<VariantModel<F>>::empty().lemma_filter_len(p);
        assert(sorted.filter(p) == before.filter(p));
        if sort_key(v) == key {
            assert forall|i: int| 0 <= i < back.len() implies !p(#[trigger] back[i]) by {
                assert(back[i] == sorted[at + i]);
            }
            back.lemma_all_neg_filter_empty(p);
            assert(after.filter(p) =~= before.filter(p).push(v));
        } else {
            assert(after.filter(p) =~= before.filter(p));
        }
    }
}

fn rank(kind: VariantKind) -> (r: u8)
    ensures
        r == match kind {
            VariantKind::Audio => 0int,
            VariantKind::Video => 1,
            VariantKind::Adaptive => 2,
        },
{
    match kind {
        VariantKind::Audio => 0,
        VariantKind::Video => 1,
        VariantKind::Adaptive => 2,
    }
}

fn height_rank<F>(v: &MediaVariant<F>) -> (r: u32)
    ensures
        r == sort_key(v@).1,
{
    match v.kind {
        VariantKind::Video => match v.height {
            Some(height) => height,
            None => 0,
        },
        _ => 0,
    }
}

fn may_stand_before<F>(a: &MediaVariant<F>, b: &MediaVariant<F>) -> (r: bool)
    ensures
        r == key_le(sort_key(a@), sort_key(b@)),
{
    let x: u8 = rank(a.kind);
    let y: u8 = rank(b.kind);
    x < y || (x == y && height_rank(a) <= height_rank(b))
}

/// Sorts the variants, keeping those that compare equal in their order.
fn sort_variants<F>(variants: Vec<MediaVariant<F>>) -> (r: Vec<MediaVariant<F>>)
    ensures
        is_stable_order(models(variants@), models(r@)),
{
    let mut sorted: Vec<MediaVariant<F>> = Vec::new();
    assert(models(sorted@) =~= models(variants@.take(0)));
    let ghost all = variants@;
    for v in it: variants
        invariant
            it.seq() == all,
            is_stable_order(models(all.take(it.index() as int)), models(sorted@)),
    {
        let mut at: usize = sorted.len();
        while at > 0 && !may_stand_before(&sorted[at - 1], &v)
            invariant
                at <= sorted.len(),
                forall|i: int|
                    at <= i < sorted.len() ==> !key_le(
                        sort_key((#[trigger] sorted@[i])@),
                        sort_key(v@),
                    ),
            decreases at,
        {
            at -= 1;
        }
        let ghost placed = sorted@;
        proof {
            assert forall|i: int| 0 <= i < at implies key_le(
                sort_key(#[trigger] models(placed)[i]),
                sort_key(v@),
            ) by {
                assert(models(placed)[i] == placed[i]@);
                assert(models(placed)[at - 1] == placed[at - 1]@);
            }
            assert forall|i: int| at <= i < placed.len() implies !key_le(
                sort_key(#[trigger] models(placed)[i]),
                sort_key(v@),
            ) by {
                assert(models(placed)[i] == placed[i]@);
            }
            lemma_insert_keeps_order(
                models(all.take(it.index() as int)),
                models(placed),
                v@,
                at as int,
            );
            assert(models(placed.insert(at as int, v)) =~= models(placed).insert(at as int, v@));
            assert(models(all.take(it.index() + 1)) =~= models(all.take(it.index() as int)).push(
                v@,
            ));
        }
        sorted.insert(at, v);
    }
    assert(all.take(all.len() as int) =~= all);
    sorted
}

// ── From the player config ───────────────────────────────────────────────────

/// The file extension that a media type names: what stands behind `video/`,
/// else `mp4`.
pub open spec fn extension_of(mime: Option<String>) -> Seq<char> {
    match mime {
        Some(name) => match text::without_prefix(name@, "video/"@) {
            Some(ext) => ext,
            None => "mp4"@,
        },
        None => "mp4"@,
    }
}

/// The variant that a progressive entry stands for.
pub open spec fn progressive_variant<F>(entry: ProgressiveEntry<F>) -> VariantModel<F> {
    VariantModel {
        format_id: entry.quality@,
        kind: VariantKind::Video,
        ext: extension_of(entry.mime),
        width: entry.width,
        height: entry.height,
        fps: entry.fps,
        url: entry.url@,
    }
}

/// The variant that an HLS manifest stands for.
pub open spec fn adaptive_variant<F>(url: Seq<char>) -> VariantModel<F> {
    VariantModel {
        format_id: "hls"@,
        kind: VariantKind::Adaptive,
        ext: "m3u8"@,
        width: None,
        height: None,
        fps: None,
        url,
    }
}

/// The manifest to use: that of the default network if the table has it, else
/// that of the network whose name comes first.
pub open spec fn manifest_url(hls: HlsEntry) -> Option<Seq<char>> {
    let names = hls.cdns@.dom();
    match hls.default_cdn {
        Some(name) if names.contains(name@) => Some(hls.cdns@[name@].url@),
        _ => if names == Set::<Seq<char>>::empty() {
            None
        } else {
            let first = choose|name: Seq<char>| player_config::is_first_name(names, name);
            Some(hls.cdns@[first].url@)
        },
    }
}

/// The manifest that a player config offers.
pub open spec fn offered_manifest<F>(config: PlayerConfig<F>) -> Option<Seq<char>> {
    match config.request.files.hls {
        Some(hls) => manifest_url(hls),
        None => None,
    }
}

/// The variants that a player config offers, in the order of the config.
pub open spec fn offered<F>(config: PlayerConfig<F>) -> Seq<VariantModel<F>> {
    let progressive = config.request.files.progressive@.map_values(
        |entry: ProgressiveEntry<F>| progressive_variant(entry),
    );
    match offered_manifest(config) {
        Some(url) => progressive.push(adaptive_variant(url)),
        None => progressive,
    }
}

/// The variants of a player config as they are listed.
pub open spec fn listed<F>(config: PlayerConfig<F>) -> Seq<VariantModel<F>> {
    choose|variants: Seq<VariantModel<F>>| is_stable_order(offered(config), variants)
}

/// Picks the manifest of an adaptive stream.
///
/// Without a default the network whose name comes first is taken, so that the
/// choice is the same on every run.
pub fn pick_cdn(hls: &HlsEntry) -> (r: Option<String>)
    ensures
        text::is_text(r, manifest_url(*hls)),
{
    if let Some(name) = &hls.default_cdn {
        if let Some(entry) = hls.cdns.get(name.as_str()) {
            return Some(entry.url.clone());
        }
    }
    match hls.cdns.first() {
        Some(entry) => {
            proof {
                let names = hls.cdns@.dom();
                let found = choose|name: Seq<char>| #[trigger]
                    player_config::is_first_name(names, name) && *entry == hls.cdns@[name];
                let first = choose|name: Seq<char>| player_config::is_first_name(names, name);
                player_config::law_first_name_is_unique(names, found, first);
            }
            Some(entry.url.clone())
        },
        None => None,
    }
}

fn progressive_to_variant<F>(entry: ProgressiveEntry<F>) -> (v: MediaVariant<F>)
    ensures
        v@ == progressive_variant(entry),
{
    let ext: String = match &entry.mime {
        Some(name) => match text::strip_prefix(name.as_str(), "video/") {
            Some(ext) => ext.to_owned(),
            None => "mp4".to_owned(),
        },
        None => "mp4".to_owned(),
    };
    MediaVariant {
        format_id: entry.quality,
        kind: VariantKind::Video,
        ext,
        width: entry.width,
        height: entry.height,
        fps: entry.fps,
        url: entry.url,
    }
}

/// Lists the variants of a player config.
///
/// Progressive files become video variants, and the HLS manifest becomes one
/// adaptive variant. Video comes in ascending height, the adaptive stream
/// last.
pub fn build_media_variants_response<F>(config: PlayerConfig<F>) -> (r: MediaVariantsResponse<F>)
    ensures
        is_stable_order(offered(config), models(r.variants@)),
        models(r.variants@) == listed(config),
{
    let ghost entries = config.request.files.progressive@;
    let ghost mapped = entries.map_values(|entry: ProgressiveEntry<F>| progressive_variant(entry));
    let mut variants: Vec<MediaVariant<F>> = Vec::new();
    assert(models(variants@) =~= mapped.take(0));
    for entry in it: config.request.files.progressive
        invariant
            it.seq() == entries,
            mapped == entries.map_values(|entry: ProgressiveEntry<F>| progressive_variant(entry)),
            models(variants@) == mapped.take(it.index() as int),
    {
        let ghost listed = variants@;
        let v: MediaVariant<F> = progressive_to_variant(entry);
        variants.push(v);
        assert(models(variants@) =~= models(listed).push(v@));
        assert(mapped.take(it.index() + 1) =~= mapped.take(it.index() as int).push(v@));
    }
    assert(mapped.take(mapped.len() as int) =~= mapped);
    if let Some(hls) = config.request.files.hls {
        if let Some(url) = pick_cdn(&hls) {
            let ghost listed = variants@;
            let v: MediaVariant<F> = MediaVariant {
                format_id: "hls".to_owned(),
                kind: VariantKind::Adaptive,
                ext: "m3u8".to_owned(),
                width: None,
                height: None,
                fps: None,
                url,
            };
            variants.push(v);
            assert(models(variants@) =~= models(listed).push(v@));
        }
    }
    let sorted: Vec<MediaVariant<F>> = sort_variants(variants);
    proof {
        law_stable_order_is_unique(offered(config), models(sorted@), listed(config));
    }
    MediaVariantsResponse { variants: sorted }
}

// ── Selection ────────────────────────────────────────────────────────────────

/// Tells the variants that are not plain video.
pub open spec fn carries_audio<F>() -> spec_fn(MediaVariant<F>) -> bool {
    |v: MediaVariant<F>| v.kind != VariantKind::Video
}

/// Drops the progressive video variants. The adaptive stream stays: audio is
/// taken out of it later.
pub fn filter_audio_only<F>(response: MediaVariantsResponse<F>) -> (r: MediaVariantsResponse<F>)
    ensures
        r.variants@ == response.variants@.filter(carries_audio::<F>()),
{
    let ghost all = response.variants@;
    let mut kept: Vec<MediaVariant<F>> = Vec::new();
    reveal(Seq::filter);
    assert(kept@ =~= all.take(0).filter(carries_audio::<F>()));
    for v in it: response.variants
        invariant
            it.seq() == all,
            kept@ == all.take(it.index() as int).filter(carries_audio::<F>()),
    {
        proof {
            reveal(Seq::filter);
            let next = all.take(it.index() + 1);
            assert(next.drop_last() =~= all.take(it.index() as int));
            assert(next.last() == v);
        }
        if v.kind != VariantKind::Video {
            kept.push(v);
        }
    }
    assert(all.take(all.len() as int) =~= all);
    MediaVariantsResponse { variants: kept }
}

/// The height that a quality label names, such as `720p`, `2K` or `4K`.
pub open spec fn height_named(quality: Seq<char>) -> Option<u32> {
    let name = text::uppered(text::trimmed_end(quality, seq!['p', 'P']));
    if name == "2K"@ {
        Some(1440)
    } else if name == "4K"@ {
        Some(2160)
    } else {
        text::number_in(name)
    }
}

/// Reads a quality label. `2K` stands for 1440 lines and `4K` for 2160.
pub fn parse_height(quality: &str) -> (r: Option<u32>)
    ensures
        r == height_named(quality@),
{
    let marks: [char; 2] = ['p', 'P'];
    assert(marks@ =~= seq!['p', 'P']);
    let name: String = text::to_ascii_uppercase(text::trim_end_matches(quality, marks.as_slice()));
    if text::same_text(name.as_str(), "2K") {
        Some(1440)
    } else if text::same_text(name.as_str(), "4K") {
        Some(2160)
    } else {
        text::parse_u32(name.as_str())
    }
}

/// A video variant of known height that does not exceed `target`.
pub open spec fn fits<F>(v: VariantModel<F>, target: u32) -> bool {
    v.kind == VariantKind::Video && (v.height matches Some(height) && height <= target)
}

/// `i` is the tallest variant that fits, the first of them if there are
/// several.
pub open spec fn is_best_fit<F>(variants: Seq<VariantModel<F>>, target: u32, i: int) -> bool {
    &&& 0 <= i < variants.len()
    &&& fits(variants[i], target)
    &&& forall|j: int|
        0 <= j < variants.len() && fits(#[trigger] variants[j], target) ==> {
            &&& variants[j].height->0 <= variants[i].height->0
            &&& j < i ==> variants[j].height->0 < variants[i].height->0
        }
}

/// `i` is the first adaptive variant.
pub open spec fn is_first_adaptive<F>(variants: Seq<VariantModel<F>>, i: int) -> bool {
    &&& 0 <= i < variants.len()
    &&& variants[i].kind == VariantKind::Adaptive
    &&& forall|j: int| 0 <= j < i ==> (#[trigger] variants[j]).kind != VariantKind::Adaptive
}

/// Which variant a preferred quality picks: the best fit, else the adaptive
/// stream. A label that names no height picks none.
pub open spec fn picked_index<F>(variants: Seq<VariantModel<F>>, preferred: Seq<char>) -> Option<
    int,
> {
    match height_named(preferred) {
        Some(target) => if exists|i: int| is_best_fit(variants, target, i) {
            Some(choose|i: int| is_best_fit(variants, target, i))
        } else if exists|i: int| is_first_adaptive(variants, i) {
            Some(choose|i: int| is_first_adaptive(variants, i))
        } else {
            None
        },
        None => None,
    }
}

/// A list holds a best fit as soon as anything in it fits, and only one.
pub proof fn law_best_fit_exists<F>(variants: Seq<VariantModel<F>>, target: u32)
    ensures
        (exists|i: int| is_best_fit(variants, target, i)) <==> (exists|i: int|
            0 <= i < variants.len() && fits(#[trigger] variants[i], target)),
        forall|i: int, j: int| #[trigger]
            is_best_fit(variants, target, i) && #[trigger] is_best_fit(variants, target, j) ==> i
                == j,
    decreases variants.len(),
{
    if exists|i: int| 0 <= i < variants.len() && fits(#[trigger] variants[i], target) {
        let rest = variants.drop_last();
        let last = variants.len() - 1;
        law_best_fit_exists(rest, target);
        if exists|i: int| is_best_fit(rest, target, i) {
            let best = choose|i: int| is_best_fit(rest, target, i);
            assert forall|j: int|
                0 <= j < rest.len() && fits(#[trigger] variants[j], target) implies {
                &&& variants[j].height->0 <= variants[best].height->0
                &&& j < best ==> variants[j].height->0 < variants[best].height->0
            } by {
                assert(rest[j] == variants[j]);
            }
            if fits(variants[last], target) && variants[last].height->0
                > variants[best].height->0 {
                assert(is_best_fit(variants, target, last));
            } else {
                assert(is_best_fit(variants, target, best));
            }
        } else {
            assert forall|j: int| 0 <= j < rest.len() implies !fits(
                #[trigger] variants[j],
                target,
            ) by {
                assert(rest[j] == variants[j]);
            }
            assert(is_best_fit(variants, target, last));
        }
    }
}

/// Where the variant stands that a preferred quality picks.
pub fn pick_index_for_quality<F>(variants: &[MediaVariant<F>], preferred: &str) -> (r: Option<
    usize,
>)
    ensures
        match picked_index(models(variants@), preferred@) {
            Some(i) => 0 <= i < variants@.len() && (r matches Some(n) && n == i),
            None => r is None,
        },
{
    let target: u32 = match parse_height(preferred) {
        Some(target) => target,
        None => {
            return None;
        },
    };
    let ghost all = models(variants@);
    let mut best: Option<usize> = None;
    let mut tallest: u32 = 0;
    let mut i: usize = 0;
    while i < variants.len()
        invariant
            i <= variants.len(),
            all == models(variants@),
            match best {
                Some(b) => b < i && is_best_fit(all.take(i as int), target, b as int) && all[b as int].height
                    == Some(tallest),
                None => forall|j: int| 0 <= j < i ==> !fits(#[trigger] all[j], target),
            },
        decreases variants.len() - i,
    {
        let ghost seen = all.take(i as int);
        let ghost next = all.take(i + 1);
        let v: &MediaVariant<F> = &variants[i];
        assert(all[i as int] == v@);
        proof {
            assert forall|j: int| 0 <= j < i implies #[trigger] next[j] == seen[j] by {}
            assert(next[i as int] == v@);
        }
        if v.kind == VariantKind::Video {
            if let Some(height) = v.height {
                if height <= target {
                    let better: bool = match best {
                        Some(_) => tallest < height,
                        None => true,
                    };
                    if better {
                        best = Some(i);
                        tallest = height;
                    }
                }
            }
        }
        i += 1;
    }
    assert(all.take(i as int) =~= all);
    proof {
        law_best_fit_exists(all, target);
    }
    if let Some(b) = best {
        assert(is_best_fit(all, target, b as int));
        return Some(b);
    }
    let mut k: usize = 0;
    while k < variants.len()
        invariant
            k <= variants.len(),
            all == models(variants@),
            height_named(preferred@) == Some(target),
            forall|j: int| 0 <= j < k ==> (#[trigger] all[j]).kind != VariantKind::Adaptive,
            !exists|j: int| is_best_fit(all, target, j),
        decreases variants.len() - k,
    {
        assert(all[k as int] == variants@[k as int]@);
        if variants[k].kind == VariantKind::Adaptive {
            assert(is_first_adaptive(all, k as int));
            return Some(k);
        }
        k += 1;
    }
    None
}

/// Picks the variant that comes closest to the preferred quality without
/// exceeding it, else the adaptive stream. The variants need not be sorted.
pub fn pick_variant_for_quality<'a, F>(variants: &'a [MediaVariant<F>], preferred: &str) -> (r:
    Option<&'a MediaVariant<F>>)
    ensures
        match picked_index(models(variants@), preferred@) {
            Some(i) => 0 <= i < variants@.len() && r == Some(&variants@[i]),
            None => r is None,
        },
{
    match pick_index_for_quality(variants, preferred) {
        Some(i) => Some(&variants[i]),
        None => None,
    }
}

// ── Laws ─────────────────────────────────────────────────────────────────────

/// The adaptive stream of a player config, if it offers one.
pub open spec fn adaptive_part<F>(config: PlayerConfig<F>) -> Seq<VariantModel<F>> {
    match offered_manifest(config) {
        Some(url) => seq![adaptive_variant(url)],
        None => seq![],
    }
}

/// Only the last of the offered variants can be adaptive.
pub proof fn lemma_offered_kinds<F>(config: PlayerConfig<F>)
    ensures
        forall|i: int|
            0 <= i < offered(config).len() ==> {
                ||| (#[trigger] offered(config)[i]).kind == VariantKind::Video
                ||| i == offered(config).len() - 1 && offered(config)[i].kind
                    == VariantKind::Adaptive
            },
        offered(config).filter(has_key::<F>((2, 0))) == adaptive_part(config),
{
    let all = offered(config);
    let progressive = config.request.files.progressive@.map_values(
        |entry: ProgressiveEntry<F>| progressive_variant(entry),
    );
    let p = has_key::<F>((2, 0));
    progressive.lemma_all_neg_filter_empty(p);
    if all.len() > progressive.len() {
        lemma_filter_last(all, (2, 0));
        assert(all.drop_last() =~= progressive);
    }
    assert(all.filter(p) =~= adaptive_part(config));
}

/// The adaptive stream comes last: in front of it stand video variants alone,
/// in ascending height.
pub proof fn law_adaptive_comes_last<F>(config: PlayerConfig<F>, variants: Seq<VariantModel<F>>)
    requires
        is_stable_order(offered(config), variants),
    ensures
        forall|i: int|
            0 <= i < variants.len() - 1 ==> (#[trigger] variants[i]).kind == VariantKind::Video,
        forall|i: int, j: int|
            0 <= i < j < variants.len() && (#[trigger] variants[i]).height is Some && (
            #[trigger] variants[j]).height is Some && variants[j].kind == VariantKind::Video
                ==> variants[i].height->0 <= variants[j].height->0,
{
    let all = offered(config);
    let p = has_key::<F>((2, 0));
    lemma_offered_kinds(config);
    lemma_same_members(all, variants);
    assert forall|i: int| 0 <= i < variants.len() implies (#[trigger] variants[i]).kind
        != VariantKind::Audio by {
        assert(variants.contains(variants[i]));
    }
    assert forall|i: int| 0 <= i < variants.len() - 1 implies (#[trigger] variants[i]).kind
        == VariantKind::Video by {
        if variants[i].kind == VariantKind::Adaptive {
            let front = variants.take(i);
            let back = variants.skip(i);
            assert(variants =~= front + back);
            Seq::filter_distributes_over_add(front, back, p);
            let pair = seq![variants[i], variants[i + 1]];
            let rest = variants.skip(i + 2);
            assert(back =~= pair + rest);
            Seq::filter_distributes_over_add(pair, rest, p);
            assert(key_le(sort_key(variants[i]), sort_key(variants[i + 1])));
            lemma_filter_last(pair, (2, 0));
            lemma_filter_last(pair.drop_last(), (2, 0));
            assert(pair.filter(p).len() >= 2);
            assert(variants.filter(p) == all.filter(p));
            assert(adaptive_part(config).len() <= 1);
            assert((front.filter(p) + (pair.filter(p) + rest.filter(p))).len() >= 2);
        }
    }
}

/// Asking for audio alone leaves the adaptive stream if there is one, and
/// nothing else.
pub proof fn law_audio_only_leaves_the_manifest<F>(
    config: PlayerConfig<F>,
    variants: Seq<MediaVariant<F>>,
)
    requires
        is_stable_order(offered(config), models(variants)),
    ensures
        models(variants.filter(carries_audio::<F>())) == adaptive_part(config),
{
    reveal(Seq::filter);
    let p = carries_audio::<F>();
    let q = has_key::<F>((2, 0));
    let all = models(variants);
    law_adaptive_comes_last(config, all);
    lemma_offered_kinds(config);
    assert(all.filter(q) == adaptive_part(config));
    if variants.len() == 0 {
        assert(models(variants.filter(p)) =~= all.filter(q));
    } else {
        let front = variants.drop_last();
        assert forall|i: int| 0 <= i < front.len() implies !p(#[trigger] front[i]) by {
            assert(models(variants)[i] == variants[i]@);
        }
        front.lemma_all_neg_filter_empty(p);
        assert(front.filter(p) =~= Seq::<MediaVariant<F>>::empty());
        lemma_filter_last(all, (2, 0));
        assert forall|i: int| 0 <= i < all.drop_last().len() implies !q(
            #[trigger] all.drop_last()[i],
        ) by {
            assert(all[i].kind == VariantKind::Video);
        }
        all.drop_last().lemma_all_neg_filter_empty(q);
        if variants.last().kind == VariantKind::Audio {
            lemma_same_members(offered(config), all);
            assert(all.contains(all.last()));
        }
        assert(models(variants.filter(p)) =~= all.filter(q));
    }
}

/// What is picked never exceeds the preferred height. Where a label names a
/// height, something is picked as soon as anything fits or an adaptive stream
/// is offered.
pub proof fn law_pick_does_not_exceed<F>(variants: Seq<VariantModel<F>>, preferred: Seq<char>)
    ensures
        match picked_index(variants, preferred) {
            Some(i) => {
                &&& height_named(preferred) matches Some(target)
                &&& 0 <= i < variants.len()
                &&& fits(variants[i], target) || variants[i].kind == VariantKind::Adaptive
            },
            None => height_named(preferred) matches Some(target) ==> forall|i: int|
                0 <= i < variants.len() ==> !fits(#[trigger] variants[i], target)
                    && variants[i].kind != VariantKind::Adaptive,
        },
{
    if let Some(target) = height_named(preferred) {
        law_best_fit_exists(variants, target);
        lemma_first_adaptive(variants);
    }
}

/// A list with an adaptive variant has a first one.
proof fn lemma_first_adaptive<F>(variants: Seq<VariantModel<F>>)
    ensures
        (forall|i: int| !is_first_adaptive(variants, i)) ==> forall|i: int|
            0 <= i < variants.len() ==> (#[trigger] variants[i]).kind != VariantKind::Adaptive,
    decreases variants.len(),
{
    if variants.len() > 0 && exists|i: int|
        0 <= i < variants.len() && (#[trigger] variants[i]).kind == VariantKind::Adaptive {
        let rest = variants.drop_last();
        let last = variants.len() - 1;
        lemma_first_adaptive(rest);
        if exists|i: int| is_first_adaptive(rest, i) {
            let i = choose|i: int| is_first_adaptive(rest, i);
            assert forall|j: int| 0 <= j < i implies (#[trigger] variants[j]).kind
                != VariantKind::Adaptive by {
                assert(rest[j] == variants[j]);
            }
            assert(is_first_adaptive(variants, i));
        } else {
            assert forall|j: int| 0 <= j < last implies (#[trigger] variants[j]).kind
                != VariantKind::Adaptive by {
                assert(rest[j] == variants[j]);
            }
            assert(is_first_adaptive(variants, last));
        }
    }
}

/// A number names its height, with any `p` or `P` behind it, if it fits 32
/// bits.
pub proof fn law_label_names_its_number(n: nat, marks: Seq<char>)
    requires
        forall|i: int| 0 <= i < marks.len() ==> #[trigger] marks[i] == 'p' || marks[i] == 'P',
    ensures
        height_named(text::decimal(n) + marks) == if n <= u32::MAX {
            Some(n as u32)
        } else {
            None
        },
{
    let digits = text::decimal(n);
    text::lemma_decimal_is_tight(n);
    lemma_height_marks(digits, marks);
    lemma_not_a_size(digits);
    text::law_number_is_read(0, n);
    assert(text::zeros(0) + digits =~= digits);
}

/// `2K` names 1440 lines and `4K` names 2160, in either case and with any `p`
/// or `P` behind.
pub proof fn law_label_names_its_size(k: char, marks: Seq<char>)
    requires
        k == 'k' || k == 'K',
        forall|i: int| 0 <= i < marks.len() ==> #[trigger] marks[i] == 'p' || marks[i] == 'P',
    ensures
        height_named(seq!['2', k] + marks) == Some(1440u32),
        height_named(seq!['4', k] + marks) == Some(2160u32),
{
    reveal_strlit("2K");
    reveal_strlit("4K");
    lemma_height_marks(seq!['2', k], marks);
    lemma_height_marks(seq!['4', k], marks);
    assert(text::uppered(seq!['2', k]) =~= "2K"@);
    assert(text::uppered(seq!['4', k]) =~= "4K"@);
    assert("2K"@[0] != "4K"@[0]);
}

/// Nothing else names a height: a label that does is `2K`, `4K` or a number,
/// with `p` and `P` behind it.
#[verifier::spinoff_prover]
pub proof fn law_only_such_labels_name_heights(quality: Seq<char>)
    ensures
        height_named(quality) matches Some(height) ==> exists|name: Seq<char>, marks: Seq<char>|
            {
                &&& quality == #[trigger] (name + marks)
                &&& forall|i: int|
                    0 <= i < marks.len() ==> #[trigger] marks[i] == 'p' || marks[i] == 'P'
                &&& (text::uppered(name) == "2K"@ && height == 1440) || (text::uppered(name)
                    == "4K"@ && height == 2160) || text::number_in(name) == Some(height)
            },
{
    if let Some(height) = height_named(quality) {
        let set = seq!['p', 'P'];
        text::law_only_marks_are_stripped(quality, set);
        let name = text::trimmed_end(quality, set);
        let marks = choose|marks: Seq<char>|
            quality == #[trigger] (name + marks) && forall|i: int|
                0 <= i < marks.len() ==> set.contains(#[trigger] marks[i]);
        assert forall|i: int| 0 <= i < marks.len() implies #[trigger] marks[i] == 'p' || marks[i]
            == 'P' by {
            assert(set.contains(marks[i]));
        }
        if text::number_in(text::uppered(name)) is Some {
            lemma_capitals_are_no_digits(name);
        }
        assert((text::uppered(name) == "2K"@ && height == 1440) || (text::uppered(name) == "4K"@
            && height == 2160) || text::number_in(name) == Some(height));
        assert(quality == name + marks);
    }
}

proof fn lemma_height_marks(name: Seq<char>, marks: Seq<char>)
    requires
        name.len() > 0,
        name.last() != 'p' && name.last() != 'P',
        forall|i: int| 0 <= i < marks.len() ==> #[trigger] marks[i] == 'p' || marks[i] == 'P',
    ensures
        text::trimmed_end(name + marks, seq!['p', 'P']) == name,
{
    let set = seq!['p', 'P'];
    assert(set[0] == 'p' && set[1] == 'P');
    assert forall|i: int| 0 <= i < marks.len() implies set.contains(#[trigger] marks[i]) by {
        assert(marks[i] == set[0] || marks[i] == set[1]);
    }
    assert(!set.contains(name.last()));
    text::law_trailing_marks_are_stripped(name, marks, set);
}

proof fn lemma_not_a_size(digits: Seq<char>)
    requires
        digits.len() > 0,
        text::is_digit(digits.last()),
    ensures
        digits != "2K"@,
        digits != "4K"@,
{
    reveal_strlit("2K");
    reveal_strlit("4K");
    assert("2K"@.last() == 'K');
    assert("4K"@.last() == 'K');
}

proof fn lemma_capitals_are_no_digits(name: Seq<char>)
    requires
        text::number_in(text::uppered(name)) is Some,
    ensures
        text::uppered(name) == name,
{
    let capitals = text::uppered(name);
    let digits = text::without_plus(capitals);
    assert forall|i: int| 0 <= i < name.len() implies #[trigger] capitals[i] == name[i] by {
        assert(capitals[i] == text::upper_char(name[i]));
        if capitals[0] == '+' {
            if i > 0 {
                assert(digits[i - 1] == capitals[i]);
                assert(text::is_digit(digits[i - 1]));
            }
        } else {
            assert(text::is_digit(digits[i]));
        }
    }
    assert(capitals =~= name);
}

/// What stands behind `video/` in a media type is the extension. Without such a
/// type it is `mp4`.
pub proof fn law_extension_is_the_subtype(mime: String, subtype: Seq<char>)
    ensures
        mime@ == "video/"@ + subtype ==> extension_of(Some(mime)) == subtype,
        extension_of(Some(mime)) == "mp4"@ || mime@ == "video/"@ + extension_of(Some(mime)),
        extension_of(None) == "mp4"@,
{
    text::law_prefix_is_undone("video/"@, subtype);
    text::law_prefix_is_undone("video/"@, mime@);
}

/// Every progressive file is offered as a video with what the config says of
/// it, and the manifest as an adaptive stream. Nothing else is offered.
pub proof fn law_every_file_is_offered<F>(config: PlayerConfig<F>, variants: Seq<VariantModel<F>>)
    requires
        is_stable_order(offered(config), variants),
    ensures
        variants.len() == config.request.files.progressive@.len() + (if offered_manifest(
            config,
        ) is Some {
            1int
        } else {
            0
        }),
        forall|j: int|
            0 <= j < config.request.files.progressive@.len() ==> {
                let entry = #[trigger] config.request.files.progressive@[j];
                exists|i: int|
                    {
                        &&& 0 <= i < variants.len()
                        &&& (#[trigger] variants[i]).kind == VariantKind::Video
                        &&& variants[i].format_id == entry.quality@
                        &&& variants[i].width == entry.width
                        &&& variants[i].height == entry.height
                        &&& variants[i].fps == entry.fps
                        &&& variants[i].url == entry.url@
                        &&& variants[i].ext == extension_of(entry.mime)
                    }
            },
        forall|j: int|
            0 <= j < config.request.files.progressive@.len() ==> (#[trigger] offered(
                config,
            )[j]).url == config.request.files.progressive@[j].url@,
        offered_manifest(config) matches Some(url) ==> variants.len() > 0 && variants.last().kind
            == VariantKind::Adaptive && variants.last().url == url && variants.last().format_id
            == "hls"@ && variants.last().ext == "m3u8"@ && variants.last().height is None
            && variants.last().width is None && variants.last().fps is None,
{
    let all = offered(config);
    let entries = config.request.files.progressive@;
    law_stable_order_is_a_permutation(all, variants);
    all.to_multiset_ensures();
    variants.to_multiset_ensures();
    lemma_same_members(all, variants);
    lemma_offered_kinds(config);
    law_adaptive_comes_last(config, variants);
    assert forall|j: int|
        #![trigger config.request.files.progressive@[j]]
        0 <= j < entries.len() implies exists|i: int|
        {
            &&& 0 <= i < variants.len()
            &&& (#[trigger] variants[i]).kind == VariantKind::Video
            &&& variants[i].format_id == entries[j].quality@
            &&& variants[i].width == entries[j].width
            &&& variants[i].height == entries[j].height
            &&& variants[i].fps == entries[j].fps
            &&& variants[i].url == entries[j].url@
            &&& variants[i].ext == extension_of(entries[j].mime)
        } by {
        assert(all[j] == progressive_variant(entries[j]));
        assert(all.contains(all[j]));
        assert(variants.contains(all[j]));
        let i = choose|i: int| 0 <= i < variants.len() && variants[i] == all[j];
        assert(variants[i].kind == VariantKind::Video);
    }
    if let Some(url) = offered_manifest(config) {
        let last = all.len() - 1;
        let v: VariantModel<F> = adaptive_variant(url);
        assert(all[last] == v);
        assert(all.contains(all[last]));
        assert(variants.contains(v));
        let i = choose|i: int| 0 <= i < variants.len() && variants[i] == v;
        assert(variants[i].kind == VariantKind::Adaptive);
        assert(i == variants.len() - 1);
    }
}

/// Tells the videos of a given height.
pub open spec fn is_video_of<F>(height: Option<u32>) -> spec_fn(VariantModel<F>) -> bool {
    |v: VariantModel<F>| v.kind == VariantKind::Video && v.height == height
}

/// Videos are listed from the lowest to the tallest, those without a height as
/// if it were 0, and videos of one height in the order of the config.
pub proof fn law_videos_are_listed_by_height<F>(
    config: PlayerConfig<F>,
    variants: Seq<VariantModel<F>>,
    height: Option<u32>,
)
    requires
        is_stable_order(offered(config), variants),
    ensures
        forall|i: int, j: int|
            0 <= i < j < variants.len() && (#[trigger] variants[i]).kind == VariantKind::Video && (
            #[trigger] variants[j]).kind == VariantKind::Video ==> (match variants[i].height {
                Some(low) => low as int,
                None => 0,
            }) <= (match variants[j].height {
                Some(high) => high as int,
                None => 0,
            }),
        variants.filter(is_video_of::<F>(height)) == offered(config).filter(
            is_video_of::<F>(height),
        ),
{
    let key = (
        1int,
        match height {
            Some(h) => h as int,
            None => 0,
        },
    );
    let p = has_key::<F>(key);
    let q = is_video_of::<F>(height);
    assert(variants.filter(p) == offered(config).filter(p));
    lemma_filter_of_filter(variants, p, q);
    lemma_filter_of_filter(offered(config), p, q);
}

proof fn lemma_filter_of_filter<F>(
    s: Seq<VariantModel<F>>,
    p: spec_fn(VariantModel<F>) -> bool,
    q: spec_fn(VariantModel<F>) -> bool,
)
    requires
        forall|v: VariantModel<F>| #[trigger] q(v) ==> p(v),
    ensures
        s.filter(p).filter(q) == s.filter(q),
    decreases s.len(),
{
    reveal(Seq::filter);
    if s.len() > 0 {
        let rest = s.drop_last();
        let v = s.last();
        lemma_filter_of_filter(rest, p, q);
        if p(v) {
            assert(s.filter(p) == rest.filter(p).push(v));
            assert(rest.filter(p).push(v).drop_last() =~= rest.filter(p));
        } else {
            assert(s.filter(p) == rest.filter(p));
        }
    }
}

/// The manifest is that of the default network if the table has it. Otherwise
/// it is that of the network whose name stands before all others.
pub proof fn law_manifest_of_a_network(hls: &HlsEntry, name: Seq<char>, r: Option<String>)
    requires
        call_ensures(pick_cdn, (hls,), r),
        hls.cdns@.dom().contains(name),
    ensures
        hls.default_cdn matches Some(default) && default@ == name ==> (r matches Some(url) && url@
            == hls.cdns@[name].url@),
        (hls.default_cdn matches Some(default) ==> !hls.cdns@.dom().contains(default@)) && (forall|
            other: Seq<char>,
        |
            hls.cdns@.dom().contains(other) && other != name ==> #[trigger] player_config::precedes(
                name,
                other,
            )) ==> (r matches Some(url) && url@ == hls.cdns@[name].url@),
{
    let names = hls.cdns@.dom();
    assert(names != Set::<Seq<char>>::empty());
    if forall|other: Seq<char>|
        names.contains(other) && other != name ==> #[trigger] player_config::precedes(
            name,
            other,
        ) {
        assert forall|other: Seq<char>| #[trigger] names.contains(
            other,
        ) implies !player_config::precedes(other, name) by {
            if other != name {
                assert(player_config::precedes(name, other));
            }
            player_config::lemma_precedes_is_total(name, other);
        }
        assert(player_config::is_first_name(names, name));
        let first = choose|first: Seq<char>| player_config::is_first_name(names, first);
        player_config::law_first_name_is_unique(names, first, name);
    }
}

/// An empty table has no manifest.
pub proof fn law_no_network_no_manifest(hls: &HlsEntry, r: Option<String>)
    requires
        call_ensures(pick_cdn, (hls,), r),
        forall|name: Seq<char>| !hls.cdns@.dom().contains(name),
    ensures
        r is None,
{
    assert(hls.cdns@.dom() =~= Set::<Seq<char>>::empty());
}

/// The manifest that a config offers is that of its HLS entry, and without one
/// there is none.
pub proof fn law_manifest_is_offered<F>(config: PlayerConfig<F>, r: Option<String>)
    requires
        config.request.files.hls matches Some(hls) ==> call_ensures(pick_cdn, (&hls,), r),
        config.request.files.hls is None ==> r is None,
    ensures
        offered_manifest(config) is Some <==> r is Some,
        r matches Some(url) ==> offered_manifest(config) == Some(url@),
{
}

/// Asking for audio drops the videos and keeps everything else, in order.
pub proof fn law_audio_filter_drops_videos<F>(a: Seq<MediaVariant<F>>, v: MediaVariant<F>)
    ensures
        Seq::<MediaVariant<F>>::empty().filter(carries_audio::<F>()) == Seq::<
            MediaVariant<F>,
        >::empty(),
        v.kind == VariantKind::Video ==> a.push(v).filter(carries_audio::<F>()) == a.filter(
            carries_audio::<F>(),
        ),
        v.kind != VariantKind::Video ==> a.push(v).filter(carries_audio::<F>()) == a.filter(
            carries_audio::<F>(),
        ).push(v),
{
    reveal(Seq::filter);
    assert(a.push(v).drop_last() =~= a);
}

/// A height picks the tallest video that does not exceed it, the first of those
/// of one height. Where there is no such video it picks the first adaptive
/// stream, and where there is none either, nothing.
pub proof fn law_pick_is_the_closest<F>(variants: Seq<VariantModel<F>>, preferred: Seq<char>)
    ensures
        match height_named(preferred) {
            Some(target) => match picked_index(variants, preferred) {
                Some(i) => {
                    &&& 0 <= i < variants.len()
                    &&& if exists|j: int|
                        0 <= j < variants.len() && (#[trigger] variants[j]).kind
                            == VariantKind::Video && variants[j].height is Some
                            && variants[j].height->0 <= target {
                        &&& variants[i].kind == VariantKind::Video
                        &&& variants[i].height is Some && variants[i].height->0 <= target
                        &&& forall|j: int|
                            0 <= j < variants.len() && (#[trigger] variants[j]).kind
                                == VariantKind::Video && variants[j].height is Some
                                && variants[j].height->0 <= target ==> variants[j].height->0
                                <= variants[i].height->0 && (j < i ==> variants[j].height->0
                                < variants[i].height->0)
                    } else {
                        &&& variants[i].kind == VariantKind::Adaptive
                        &&& forall|j: int|
                            0 <= j < i ==> (#[trigger] variants[j]).kind != VariantKind::Adaptive
                    }
                },
                None => forall|j: int|
                    0 <= j < variants.len() ==> (#[trigger] variants[j]).kind
                        != VariantKind::Adaptive && !(variants[j].kind == VariantKind::Video
                        && variants[j].height is Some && variants[j].height->0 <= target),
            },
            None => picked_index(variants, preferred) is None,
        },
{
    law_pick_does_not_exceed(variants, preferred);
    if let Some(target) = height_named(preferred) {
        law_best_fit_exists(variants, target);
        lemma_first_adaptive(variants);
        if exists|j: int|
            0 <= j < variants.len() && (#[trigger] variants[j]).kind == VariantKind::Video
                && variants[j].height is Some && variants[j].height->0 <= target {
            let j = choose|j: int|
                0 <= j < variants.len() && (#[trigger] variants[j]).kind == VariantKind::Video
                    && variants[j].height is Some && variants[j].height->0 <= target;
            assert(fits(variants[j], target));
            let i = picked_index(variants, preferred)->0;
            assert(is_best_fit(variants, target, i));
            assert forall|k: int|
                0 <= k < variants.len() && (#[trigger] variants[k]).kind == VariantKind::Video
                    && variants[k].height is Some && variants[k].height->0
                    <= target implies variants[k].height->0 <= variants[i].height->0 && (k < i
                ==> variants[k].height->0 < variants[i].height->0) by {
                assert(fits(variants[k], target));
            }
        } else {
            assert forall|k: int| 0 <= k < variants.len() implies !fits(
                #[trigger] variants[k],
                target,
            ) by {}
            assert(!exists|k: int| is_best_fit(variants, target, k));
            if let Some(i) = picked_index(variants, preferred) {
                assert(is_first_adaptive(variants, i));
            }
        }
    }
}

/// Reading a label of a number with any `p` or `P` behind it gives that number,
/// if it fits 32 bits.
pub proof fn law_height_is_read(quality: &str, n: nat, marks: Seq<char>, r: Option<u32>)
    requires
        call_ensures(parse_height, (quality,), r),
        quality@ == text::decimal(n) + marks,
        forall|i: int| 0 <= i < marks.len() ==> #[trigger] marks[i] == 'p' || marks[i] == 'P',
    ensures
        r == if n <= u32::MAX {
            Some(n as u32)
        } else {
            None
        },
{
    law_label_names_its_number(n, marks);
}

/// Reading `2K` gives 1440 and reading `4K` gives 2160, in either case and with
/// any `p` or `P` behind.
pub proof fn law_size_is_read(quality: &str, k: char, marks: Seq<char>, r: Option<u32>)
    requires
        call_ensures(parse_height, (quality,), r),
        k == 'k' || k == 'K',
        forall|i: int| 0 <= i < marks.len() ==> #[trigger] marks[i] == 'p' || marks[i] == 'P',
    ensures
        quality@ == seq!['2', k] + marks ==> r == Some(1440u32),
        quality@ == seq!['4', k] + marks ==> r == Some(2160u32),
{
    law_label_names_its_size(k, marks);
}

/// The list holds the variants that the config offers, each as often as it is
/// offered, with no video behind a taller one and none behind the manifest.
pub proof fn law_list_is_what_is_offered<F>(config: PlayerConfig<F>, r: MediaVariantsResponse<F>)
    requires
        call_ensures(build_media_variants_response::<F>, (config,), r),
    ensures
        is_stable_order(offered(config), models(r.variants@)),
        models(r.variants@).to_multiset() == offered(config).to_multiset(),
        forall|i: int, j: int|
            0 <= i < j < r.variants@.len() ==> (#[trigger] r.variants@[i]).kind
                == VariantKind::Video && ((#[trigger] r.variants@[j]).kind == VariantKind::Video
                ==> (match r.variants@[i].height {
                Some(low) => low as int,
                None => 0,
            }) <= (match r.variants@[j].height {
                Some(high) => high as int,
                None => 0,
            })),
{
    let variants = models(r.variants@);
    law_stable_order_is_a_permutation(offered(config), variants);
    law_adaptive_comes_last(config, variants);
    law_videos_are_listed_by_height(config, variants, None);
    assert forall|i: int| 0 <= i < r.variants@.len() implies #[trigger] variants[i]
        == r.variants@[i]@ by {}
    assert forall|i: int, j: int| 0 <= i < j < r.variants@.len() implies (
    #[trigger] r.variants@[i]).kind == VariantKind::Video && ((#[trigger] r.variants@[j]).kind
        == VariantKind::Video ==> (match r.variants@[i].height {
        Some(low) => low as int,
        None => 0,
    }) <= (match r.variants@[j].height {
        Some(high) => high as int,
        None => 0,
    })) by {
        assert(variants[i] == r.variants@[i]@);
        assert(variants[j] == r.variants@[j]@);
    }
}

/// Asking for audio keeps what is no video, and keeps its order.
pub proof fn law_audio_is_what_is_no_video<F>(
    response: MediaVariantsResponse<F>,
    r: MediaVariantsResponse<F>,
)
    requires
        call_ensures(filter_audio_only::<F>, (response,), r),
    ensures
        r.variants@ == response.variants@.filter(
            |v: MediaVariant<F>| v.kind == VariantKind::Audio || v.kind == VariantKind::Adaptive,
        ),
{
    assert(carries_audio::<F>() =~= (|v: MediaVariant<F>|
        v.kind == VariantKind::Audio || v.kind == VariantKind::Adaptive));
}

/// A variant is picked by its height: the tallest video that does not exceed
/// the height that was asked for, the first of those of one height, or without
/// any the first adaptive stream.
pub proof fn law_variant_is_picked_by_height<F>(
    variants: &[MediaVariant<F>],
    preferred: &str,
    target: u32,
    r: Option<&MediaVariant<F>>,
    at: Option<usize>,
)
    requires
        call_ensures(pick_variant_for_quality::<F>, (variants, preferred), r),
        call_ensures(pick_index_for_quality::<F>, (variants, preferred), at),
        height_named(preferred@) == Some(target),
    ensures
        r is Some <==> at is Some,
        at matches Some(i) ==> i < variants@.len() && r == Some(&variants@[i as int]),
        match r {
            Some(v) if v.kind == VariantKind::Video => {
                &&& v.height matches Some(height)
                &&& height <= target
                &&& forall|j: int|
                    0 <= j < variants@.len() && (#[trigger] variants@[j]).kind == VariantKind::Video
                        && variants@[j].height is Some && variants@[j].height->0 <= target
                        ==> variants@[j].height->0 <= height && (j < at->0
                        ==> variants@[j].height->0 < height)
            },
            Some(v) => {
                &&& v.kind == VariantKind::Adaptive
                &&& forall|j: int|
                    0 <= j < variants@.len() && (#[trigger] variants@[j]).kind == VariantKind::Video
                        && variants@[j].height is Some ==> variants@[j].height->0 > target
                &&& forall|j: int|
                    0 <= j < at->0 ==> (#[trigger] variants@[j]).kind != VariantKind::Adaptive
            },
            None => forall|j: int|
                0 <= j < variants@.len() ==> (#[trigger] variants@[j]).kind
                    != VariantKind::Adaptive && (variants@[j].kind == VariantKind::Video
                    && variants@[j].height is Some ==> variants@[j].height->0 > target),
        },
{
    let all = models(variants@);
    law_pick_is_the_closest(all, preferred@);
    assert forall|j: int| 0 <= j < variants@.len() implies #[trigger] all[j] == variants@[j]@ by {}
    assert forall|j: int| 0 <= j < variants@.len() implies (#[trigger] variants@[j]).kind
        == all[j].kind && variants@[j].height == all[j].height by {
        assert(all[j] == variants@[j]@);
    }
}

/// A label that names no height picks nothing.
pub proof fn law_nothing_is_picked_without_a_height<F>(
    variants: &[MediaVariant<F>],
    preferred: &str,
    r: Option<&MediaVariant<F>>,
)
    requires
        call_ensures(pick_variant_for_quality::<F>, (variants, preferred), r),
        height_named(preferred@) is None,
    ensures
        r is None,
{
}

/// The first that is kept is the first that passes.
pub proof fn lemma_filter_keeps_the_first<A>(s: Seq<A>, p: spec_fn(A) -> bool, i: int)
    requires
        0 <= i < s.len(),
        p(s[i]),
        forall|j: int| 0 <= j < i ==> !p(#[trigger] s[j]),
    ensures
        s.filter(p).len() > 0,
        s.filter(p)[0] == s[i],
{
    reveal(Seq::filter);
    let front = s.take(i);
    let one = seq![s[i]];
    let back = s.skip(i + 1);
    assert(s =~= front + one + back);
    Seq::filter_distributes_over_add(front + one, back, p);
    Seq::filter_distributes_over_add(front, one, p);
    front.lemma_all_neg_filter_empty(p);
    assert(one.drop_last() =~= Seq::<A>::empty());
    assert(one.filter(p) =~= one);
    assert(s.filter(p) =~= one + back.filter(p));
}

/// The last that is kept is the last that passes.
pub proof fn lemma_filter_keeps_the_last<A>(s: Seq<A>, p: spec_fn(A) -> bool, i: int)
    requires
        0 <= i < s.len(),
        p(s[i]),
        forall|j: int| i < j < s.len() ==> !p(#[trigger] s[j]),
    ensures
        s.filter(p).len() > 0,
        s.filter(p).last() == s[i],
{
    reveal(Seq::filter);
    let front = s.take(i);
    let one = seq![s[i]];
    let back = s.skip(i + 1);
    assert(s =~= front + one + back);
    Seq::filter_distributes_over_add(front + one, back, p);
    Seq::filter_distributes_over_add(front, one, p);
    assert forall|j: int| 0 <= j < back.len() implies !p(#[trigger] back[j]) by {
        assert(back[j] == s[i + 1 + j]);
    }
    back.lemma_all_neg_filter_empty(p);
    assert(one.drop_last() =~= Seq::<A>::empty());
    assert(one.filter(p) =~= one);
    assert(s.filter(p) =~= front.filter(p) + one);
}

/// However a number is written, with zeros or a `+` in front, a label of it with
/// any `p` or `P` behind is read as that number.
pub proof fn law_written_height_is_read(
    quality: &str,
    name: Seq<char>,
    n: u32,
    marks: Seq<char>,
    r: Option<u32>,
)
    requires
        call_ensures(parse_height, (quality,), r),
        quality@ == name + marks,
        text::number_in(name) == Some(n),
        forall|i: int| 0 <= i < marks.len() ==> #[trigger] marks[i] == 'p' || marks[i] == 'P',
    ensures
        r == Some(n),
{
    let digits = text::without_plus(name);
    assert(digits.last() == name.last());
    assert(text::is_digit(digits[digits.len() - 1]));
    assert forall|i: int| 0 <= i < name.len() implies #[trigger] text::uppered(name)[i]
        == name[i] by {
        if name[0] == '+' {
            if i > 0 {
                assert(digits[i - 1] == name[i]);
                assert(text::is_digit(digits[i - 1]));
            }
        } else {
            assert(text::is_digit(digits[i]));
        }
    }
    assert(text::uppered(name) =~= name);
    lemma_height_marks(name, marks);
    lemma_not_a_size(name);
}

} // verus!
