//! Colour usage: which colours an image holds, how often, and in what order
//! they are listed.

use vstd::prelude::*;
use vstd::seq_lib::lemma_fold_left_permutation;
use vstd::seq_lib::seq_to_set_is_finite;
use vstd::seq_lib::to_multiset_contains;
use indexmap::IndexMap;
use std::collections::hash_map::RandomState;
use std::cmp::Ordering;
use crate::bitmap::outside;
use crate::bitmap::Bitmap;
use crate::bitmap::Image;
use crate::color::lemma_hex_rgba_injective;
use crate::color::lemma_hex_rgba_round_trip;
use crate::color::lemma_hex_rgba_unpack;
use crate::color::PixelRGBA;
use crate::constants::TILE_SIZE;

verus! {

/// `indexmap::IndexMap`, a hash map that keeps its entries in a sequence.
#[verifier::external_type_specification]
#[verifier::external_body]
#[verifier::reject_recursive_types(K)]
#[verifier::reject_recursive_types(V)]
#[verifier::reject_recursive_types(S)]
pub struct ExIndexMap<K, V, S>(IndexMap<K, V, S>);

/// The entries of an index map, each a packed colour and its count, in the map's order.
pub uninterp spec fn map_entries(map: IndexMap<u32, usize, RandomState>) -> Seq<(u32, usize)>;

/// The sort key of a packed colour.
pub open spec fn packed_sort_key(packed: u32) -> crate::color::SortKey {
    PixelRGBA::spec_from_hex_rgba(packed).sort_key()
}

/// `IndexMap::new`: a map without entries.
#[verifier::external_body]
fn map_new() -> (map: IndexMap<u32, usize, RandomState>)
    ensures
        map_entries(map) == Seq::<(u32, usize)>::empty(),
{
    IndexMap::new()
}

/// `IndexMap::len`: the number of entries.
#[verifier::external_body]
fn map_len(map: &IndexMap<u32, usize, RandomState>) -> (len: usize)
    ensures
        len == map_entries(*map).len(),
{
    map.len()
}

/// `IndexMap::get_index_of`: the place of the entry with the given key, or `None`
/// when no entry has that key.
#[verifier::external_body]
fn map_get_index_of(map: &IndexMap<u32, usize, RandomState>, key: u32) -> (place: Option<usize>)
    ensures
        match place {
            Some(index) => index < map_entries(*map).len() && map_entries(*map)[index as int].0
                == key,
            None => forall|i: int|
                0 <= i < map_entries(*map).len() ==> (#[trigger] map_entries(*map)[i]).0 != key,
        },
{
    map.get_index_of(&key)
}

/// `IndexMap::get_index`: the entry at a place, or `None` past the end.
#[verifier::external_body]
fn map_get_index(map: &IndexMap<u32, usize, RandomState>, index: usize) -> (entry: Option<
    (u32, usize),
>)
    ensures
        index < map_entries(*map).len() ==> entry == Some(map_entries(*map)[index as int]),
        index >= map_entries(*map).len() ==> entry.is_none(),
{
    map.get_index(index).map(|(key, value)| (*key, *value))
}

/// `IndexMap::insert_full`: where the key is already present its entry keeps its place
/// and takes the new value, and the place and the old value are returned; otherwise
/// the entry is added at the end, and its place and `None` are returned.
#[verifier::external_body]
fn map_insert_full(map: &mut IndexMap<u32, usize, RandomState>, key: u32, value: usize) -> (result: (
    usize,
    Option<usize>,
))
    ensures
        match result.1 {
            Some(previous) => {
                &&& result.0 < map_entries(*old(map)).len()
                &&& map_entries(*old(map))[result.0 as int] == (key, previous)
                &&& map_entries(*final(map)) == map_entries(*old(map)).update(
                    result.0 as int,
                    (key, value),
                )
            },
            None => {
                &&& result.0 == map_entries(*old(map)).len()
                &&& forall|i: int|
                    0 <= i < map_entries(*old(map)).len() ==> (#[trigger] map_entries(
                        *old(map),
                    )[i]).0 != key
                &&& map_entries(*final(map)) == map_entries(*old(map)).push((key, value))
            },
        },
{
    map.insert_full(key, value)
}

/// Orders two packed colours by hue, then lightness, then saturation.
fn compare_packed(a: u32, b: u32) -> (order: Ordering)
    ensures
        (order == Ordering::Less) == packed_sort_key(a).less(packed_sort_key(b)),
        (order == Ordering::Greater) == packed_sort_key(b).less(packed_sort_key(a)),
        (order == Ordering::Equal) == (packed_sort_key(a) == packed_sort_key(b)),
{
    let color_a = PixelRGBA::from_hex_rgba(a);
    let color_b = PixelRGBA::from_hex_rgba(b);
    PixelRGBA::compare_by_hue_luminosity_saturation(&color_a, &color_b)
}

/// The keys of the entries are in non-decreasing colour order.
#[verifier::opaque]
pub open spec fn keys_sorted(entries: Seq<(u32, usize)>) -> bool {
    forall|i: int, j: int|
        0 <= i < j < entries.len() ==> packed_sort_key((#[trigger] entries[i]).0).less_or_equal(
            packed_sort_key((#[trigger] entries[j]).0),
        )
}

/// Entries whose keys are equal in the colour order stand in `after` in the order in
/// which they stand in `before`.
#[verifier::opaque]
pub open spec fn equal_keys_keep_order(before: Seq<(u32, usize)>, after: Seq<(u32, usize)>) -> bool {
    forall|i: int, j: int, a: int, b: int|
        #![trigger after[i], after[j], before[a], before[b]]
        0 <= i < j < after.len() && 0 <= a < before.len() && 0 <= b < before.len() && before[a]
            == after[i] && before[b] == after[j] && packed_sort_key(after[i].0) == packed_sort_key(
            after[j].0,
        ) ==> a < b
}

/// `IndexMap::sort_by` with the colour order on the keys: the same entries, sorted,
/// and, the sort being stable, entries whose keys compare equal in the order they had.
#[verifier::external_body]
fn map_sort_by_color(map: &mut IndexMap<u32, usize, RandomState>)
    ensures
        map_entries(*final(map)).to_multiset() == map_entries(*old(map)).to_multiset(),
        map_entries(*final(map)).len() == map_entries(*old(map)).len(),
        keys_sorted(map_entries(*final(map))),
        equal_keys_keep_order(map_entries(*old(map)), map_entries(*final(map))),
{
    map.sort_by(|a, _, b, _| compare_packed(*a, *b));
}

/// How often `color` occurs among `pixels`.
pub open spec fn occurrences(pixels: Seq<PixelRGBA>, color: PixelRGBA) -> nat
    decreases pixels.len(),
{
    if pixels.len() == 0 {
        0
    } else {
        occurrences(pixels.drop_last(), color) + if pixels.last() == color {
            1nat
        } else {
            0nat
        }
    }
}

/// How many of `pixels` are not fully transparent.
pub open spec fn visible_count(pixels: Seq<PixelRGBA>) -> nat
    decreases pixels.len(),
{
    if pixels.len() == 0 {
        0
    } else {
        visible_count(pixels.drop_last()) + if pixels.last().a != 0 {
            1nat
        } else {
            0nat
        }
    }
}

/// The sum of the counts of a sequence of map entries.
pub open spec fn sum_counts(entries: Seq<(u32, usize)>) -> nat {
    entries.fold_left(0nat, |sum: nat, entry: (u32, usize)| sum + entry.1 as nat)
}

/// No two entries have the same key.
pub open spec fn distinct_keys(entries: Seq<(u32, usize)>) -> bool {
    forall|i: int, j: int|
        0 <= i < entries.len() && 0 <= j < entries.len() && i != j ==> (#[trigger] entries[i]).0
            != (#[trigger] entries[j]).0
}

/// Whether some entry has the key `key`.
pub open spec fn has_key(entries: Seq<(u32, usize)>, key: u32) -> bool {
    exists|i: int| 0 <= i < entries.len() && (#[trigger] entries[i]).0 == key
}

/// `entries` counts the visible pixels among `pixels`: one entry for each colour
/// that occurs, holding how often it does.
pub open spec fn counts_pixels(entries: Seq<(u32, usize)>, pixels: Seq<PixelRGBA>) -> bool {
    &&& distinct_keys(entries)
    &&& forall|i: int|
        0 <= i < entries.len() ==> {
            &&& PixelRGBA::spec_from_hex_rgba((#[trigger] entries[i]).0).a != 0
            &&& entries[i].1 >= 1
            &&& entries[i].1 == occurrences(pixels, PixelRGBA::spec_from_hex_rgba(entries[i].0))
        }
    &&& forall|color: PixelRGBA|
        color.a != 0 && !has_key(entries, color.spec_to_hex_rgba()) ==> #[trigger] occurrences(
            pixels,
            color,
        ) == 0
    &&& sum_counts(entries) == visible_count(pixels)
}

/// A colour that occurs among the pixels is counted at least once, and one that is
/// counted at all occurs somewhere.
pub proof fn lemma_occurrences_positive(pixels: Seq<PixelRGBA>, color: PixelRGBA)
    ensures
        occurrences(pixels, color) > 0 <==> exists|j: int|
            0 <= j < pixels.len() && #[trigger] pixels[j] == color,
        occurrences(pixels, color) <= pixels.len(),
    decreases pixels.len(),
{
    if pixels.len() > 0 {
        let rest = pixels.drop_last();
        lemma_occurrences_positive(rest, color);
        if occurrences(pixels, color) > 0 {
            if pixels.last() == color {
                assert(pixels[pixels.len() - 1] == color);
            } else {
                let j = choose|j: int| 0 <= j < rest.len() && #[trigger] rest[j] == color;
                assert(pixels[j] == color);
            }
        }
        if exists|j: int| 0 <= j < pixels.len() && #[trigger] pixels[j] == color {
            let j = choose|j: int| 0 <= j < pixels.len() && #[trigger] pixels[j] == color;
            if j < rest.len() {
                assert(rest[j] == color);
            }
        }
    }
}

/// Counting is unchanged by the order of the entries.
proof fn lemma_counts_pixels_permuted(
    before: Seq<(u32, usize)>,
    after: Seq<(u32, usize)>,
    pixels: Seq<PixelRGBA>,
)
    requires
        counts_pixels(before, pixels),
        before.to_multiset() == after.to_multiset(),
    ensures
        counts_pixels(after, pixels),
{
    broadcast use to_multiset_contains;

    assert forall|i: int| 0 <= i < after.len() implies before.contains(#[trigger] after[i]) by {
        assert(after.contains(after[i]));
        assert(after.to_multiset().count(after[i]) > 0);
    }
    assert forall|i: int| 0 <= i < before.len() implies after.contains(#[trigger] before[i]) by {
        assert(before.contains(before[i]));
        assert(before.to_multiset().count(before[i]) > 0);
    }
    // Distinct entries, hence distinct keys.
    assert forall|i: int, j: int|
        0 <= i < before.len() && 0 <= j < before.len() && i != j implies #[trigger] before[i]
        != #[trigger] before[j] by {
        assert(before[i].0 != before[j].0);
    }
    assert(before.no_duplicates());
    before.lemma_multiset_has_no_duplicates();
    after.lemma_multiset_has_no_duplicates_conv();
    assert forall|i: int, j: int|
        0 <= i < after.len() && 0 <= j < after.len() && i != j implies (#[trigger] after[i]).0 != (
        #[trigger] after[j]).0 by {
        assert(after[i] != after[j]);
        let a = choose|a: int| 0 <= a < before.len() && before[a] == after[i];
        let b = choose|b: int| 0 <= b < before.len() && before[b] == after[j];
        assert(a != b);
        assert(before[a].0 != before[b].0);
    }
    assert forall|i: int| 0 <= i < after.len() implies {
        &&& PixelRGBA::spec_from_hex_rgba((#[trigger] after[i]).0).a != 0
        &&& after[i].1 >= 1
        &&& after[i].1 == occurrences(pixels, PixelRGBA::spec_from_hex_rgba(after[i].0))
    } by {
        let a = choose|a: int| 0 <= a < before.len() && before[a] == after[i];
        assert(before[a] == after[i]);
    }
    assert forall|color: PixelRGBA|
        color.a != 0 && !has_key(after, color.spec_to_hex_rgba()) implies #[trigger] occurrences(
        pixels,
        color,
    ) == 0 by {
        if has_key(before, color.spec_to_hex_rgba()) {
            let a = choose|a: int|
                0 <= a < before.len() && (#[trigger] before[a]).0 == color.spec_to_hex_rgba();
            let i = choose|i: int| 0 <= i < after.len() && after[i] == before[a];
            assert(after[i].0 == color.spec_to_hex_rgba());
        }
    }
    let f = |sum: nat, entry: (u32, usize)| sum + entry.1 as nat;
    lemma_fold_left_permutation(before, after, f, 0nat);
}

/// Adding a count at the end adds it to the sum.
proof fn lemma_sum_counts_push(entries: Seq<(u32, usize)>, entry: (u32, usize))
    ensures
        sum_counts(entries.push(entry)) == sum_counts(entries) + entry.1,
{
    assert(entries.push(entry).drop_last() =~= entries);
}

/// Replacing one entry changes the sum by the difference of the two counts.
proof fn lemma_sum_counts_update(entries: Seq<(u32, usize)>, index: int, entry: (u32, usize))
    requires
        0 <= index < entries.len(),
    ensures
        sum_counts(entries.update(index, entry)) == sum_counts(entries) - entries[index].1
            + entry.1,
    decreases entries.len(),
{
    let updated = entries.update(index, entry);
    if index == entries.len() - 1 {
        assert(updated.drop_last() =~= entries.drop_last());
    } else {
        lemma_sum_counts_update(entries.drop_last(), index, entry);
        assert(updated.drop_last() =~= entries.drop_last().update(index, entry));
    }
}

/// One more pixel, fully transparent, leaves the counts as they are.
proof fn lemma_count_transparent(entries: Seq<(u32, usize)>, seen: Seq<PixelRGBA>, pixel: PixelRGBA)
    requires
        counts_pixels(entries, seen),
        pixel.a == 0,
    ensures
        counts_pixels(entries, seen.push(pixel)),
{
    let now = seen.push(pixel);
    assert(now.drop_last() =~= seen);
    assert forall|color: PixelRGBA|
        color.a != 0 && !has_key(entries, color.spec_to_hex_rgba()) implies #[trigger] occurrences(
        now,
        color,
    ) == 0 by {
        assert(occurrences(seen, color) == 0);
    }
}

/// One more visible pixel of a colour that has an entry raises that entry's count by one.
proof fn lemma_count_again(
    entries: Seq<(u32, usize)>,
    seen: Seq<PixelRGBA>,
    pixel: PixelRGBA,
    place: int,
)
    requires
        counts_pixels(entries, seen),
        pixel.a != 0,
        0 <= place < entries.len(),
        entries[place].0 == pixel.spec_to_hex_rgba(),
        entries[place].1 < usize::MAX,
    ensures
        counts_pixels(
            entries.update(place, (entries[place].0, (entries[place].1 + 1) as usize)),
            seen.push(pixel),
        ),
{
    let key = entries[place].0;
    let after = entries.update(place, (key, (entries[place].1 + 1) as usize));
    let now = seen.push(pixel);
    assert(now.drop_last() =~= seen);
    lemma_sum_counts_update(entries, place, (key, (entries[place].1 + 1) as usize));
    assert forall|k: int, j: int|
        0 <= k < after.len() && 0 <= j < after.len() && k != j implies (#[trigger] after[k]).0 != (
    #[trigger] after[j]).0 by {
        assert(entries[k].0 != entries[j].0);
    }
    assert forall|k: int| 0 <= k < after.len() implies {
        &&& PixelRGBA::spec_from_hex_rgba((#[trigger] after[k]).0).a != 0
        &&& after[k].1 >= 1
        &&& after[k].1 == occurrences(now, PixelRGBA::spec_from_hex_rgba(after[k].0))
    } by {
        lemma_hex_rgba_round_trip(entries[k].0);
        if k != place {
            assert(entries[k].0 != entries[place].0);
        } else {
            lemma_hex_rgba_injective(PixelRGBA::spec_from_hex_rgba(entries[k].0), pixel);
        }
    }
    assert forall|color: PixelRGBA|
        color.a != 0 && !has_key(after, color.spec_to_hex_rgba()) implies #[trigger] occurrences(
        now,
        color,
    ) == 0 by {
        if has_key(entries, color.spec_to_hex_rgba()) {
            let k = choose|k: int|
                0 <= k < entries.len() && (#[trigger] entries[k]).0 == color.spec_to_hex_rgba();
            assert(after[k].0 == color.spec_to_hex_rgba());
        }
        assert(occurrences(seen, color) == 0);
        assert(after[place].0 == pixel.spec_to_hex_rgba());
    }
}

/// One more visible pixel of a colour that has no entry yet adds an entry with count one.
proof fn lemma_count_first(entries: Seq<(u32, usize)>, seen: Seq<PixelRGBA>, pixel: PixelRGBA)
    requires
        counts_pixels(entries, seen),
        pixel.a != 0,
        !has_key(entries, pixel.spec_to_hex_rgba()),
    ensures
        counts_pixels(entries.push((pixel.spec_to_hex_rgba(), 1usize)), seen.push(pixel)),
{
    let key = pixel.spec_to_hex_rgba();
    let after = entries.push((key, 1usize));
    let now = seen.push(pixel);
    assert(now.drop_last() =~= seen);
    lemma_sum_counts_push(entries, (key, 1usize));
    assert(occurrences(seen, pixel) == 0);
    assert forall|k: int, j: int|
        0 <= k < after.len() && 0 <= j < after.len() && k != j implies (#[trigger] after[k]).0 != (
    #[trigger] after[j]).0 by {
        if k < entries.len() && j < entries.len() {
            assert(entries[k].0 != entries[j].0);
        } else if k < entries.len() {
            assert(entries[k].0 != key);
        } else {
            assert(entries[j].0 != key);
        }
    }
    assert forall|k: int| 0 <= k < after.len() implies {
        &&& PixelRGBA::spec_from_hex_rgba((#[trigger] after[k]).0).a != 0
        &&& after[k].1 >= 1
        &&& after[k].1 == occurrences(now, PixelRGBA::spec_from_hex_rgba(after[k].0))
    } by {
        if k < entries.len() {
            lemma_hex_rgba_round_trip(entries[k].0);
            assert(entries[k].0 != key);
        } else {
            lemma_hex_rgba_round_trip(key);
            lemma_hex_rgba_injective(PixelRGBA::spec_from_hex_rgba(key), pixel);
        }
    }
    assert forall|color: PixelRGBA|
        color.a != 0 && !has_key(after, color.spec_to_hex_rgba()) implies #[trigger] occurrences(
        now,
        color,
    ) == 0 by {
        if has_key(entries, color.spec_to_hex_rgba()) {
            let k = choose|k: int|
                0 <= k < entries.len() && (#[trigger] entries[k]).0 == color.spec_to_hex_rgba();
            assert(after[k].0 == color.spec_to_hex_rgba());
        }
        assert(occurrences(seen, color) == 0);
        assert(after[entries.len() as int].0 == key);
    }
}

/// The place at which `color` is first met among `pixels`, where it occurs at all.
pub open spec fn first_met(pixels: Seq<PixelRGBA>, color: PixelRGBA) -> int
    decreases pixels.len(),
{
    if pixels.len() == 0 {
        0
    } else if occurrences(pixels.drop_last(), color) > 0 {
        first_met(pixels.drop_last(), color)
    } else {
        pixels.len() - 1
    }
}

/// Where a colour occurs, the place at which it is first met holds it, and no place
/// before that does.
pub proof fn lemma_first_met(pixels: Seq<PixelRGBA>, color: PixelRGBA)
    requires
        occurrences(pixels, color) > 0,
    ensures
        0 <= first_met(pixels, color) < pixels.len(),
        pixels[first_met(pixels, color)] == color,
        forall|j: int| 0 <= j < first_met(pixels, color) ==> pixels[j] != color,
    decreases pixels.len(),
{
    let rest = pixels.drop_last();
    if occurrences(rest, color) > 0 {
        lemma_first_met(rest, color);
        assert forall|j: int| 0 <= j < first_met(pixels, color) implies pixels[j] != color by {
            assert(rest[j] == pixels[j]);
        }
    } else {
        lemma_occurrences_positive(rest, color);
        assert forall|j: int| 0 <= j < first_met(pixels, color) implies pixels[j] != color by {
            assert(rest[j] == pixels[j]);
        }
    }
}

/// The entries stand in the order in which their colours are first met among the pixels.
pub open spec fn met_in_order(entries: Seq<(u32, usize)>, pixels: Seq<PixelRGBA>) -> bool {
    forall|a: int, b: int|
        0 <= a < b < entries.len() ==> first_met(
            pixels,
            PixelRGBA::spec_from_hex_rgba((#[trigger] entries[a]).0),
        ) < first_met(pixels, PixelRGBA::spec_from_hex_rgba((#[trigger] entries[b]).0))
}

/// One more pixel leaves entries that keep their keys in the order in which their
/// colours are first met.
proof fn lemma_met_in_order_kept(
    before: Seq<(u32, usize)>,
    after: Seq<(u32, usize)>,
    seen: Seq<PixelRGBA>,
    pixel: PixelRGBA,
)
    requires
        counts_pixels(before, seen),
        met_in_order(before, seen),
        after.len() == before.len(),
        forall|k: int| 0 <= k < before.len() ==> (#[trigger] after[k]).0 == before[k].0,
    ensures
        met_in_order(after, seen.push(pixel)),
{
    let now = seen.push(pixel);
    assert(now.drop_last() =~= seen);
    assert forall|a: int, b: int| 0 <= a < b < after.len() implies first_met(
        now,
        PixelRGBA::spec_from_hex_rgba((#[trigger] after[a]).0),
    ) < first_met(now, PixelRGBA::spec_from_hex_rgba((#[trigger] after[b]).0)) by {
        assert(before[a].1 >= 1);
        assert(before[b].1 >= 1);
    }
}

/// One more pixel of a colour that is met for the first time, with its entry added at
/// the end, leaves the entries in the order in which their colours are first met.
proof fn lemma_met_in_order_added(
    before: Seq<(u32, usize)>,
    seen: Seq<PixelRGBA>,
    pixel: PixelRGBA,
    count: usize,
)
    requires
        counts_pixels(before, seen),
        met_in_order(before, seen),
        pixel.a != 0,
        !has_key(before, pixel.spec_to_hex_rgba()),
    ensures
        met_in_order(before.push((pixel.spec_to_hex_rgba(), count)), seen.push(pixel)),
{
    let now = seen.push(pixel);
    let after = before.push((pixel.spec_to_hex_rgba(), count));
    assert(now.drop_last() =~= seen);
    lemma_hex_rgba_unpack(pixel);
    assert(occurrences(seen, pixel) == 0);
    assert forall|a: int, b: int| 0 <= a < b < after.len() implies first_met(
        now,
        PixelRGBA::spec_from_hex_rgba((#[trigger] after[a]).0),
    ) < first_met(now, PixelRGBA::spec_from_hex_rgba((#[trigger] after[b]).0)) by {
        assert(before[a].1 >= 1);
        let first = PixelRGBA::spec_from_hex_rgba(before[a].0);
        lemma_first_met(seen, first);
        if b < before.len() {
            assert(before[b].1 >= 1);
        }
    }
}

/// Entries whose keys are equal in the colour order stand in the order in which their
/// colours are first met among the pixels.
pub open spec fn equal_keys_in_order_met(entries: Seq<(u32, usize)>, pixels: Seq<PixelRGBA>) -> bool {
    forall|i: int, j: int|
        0 <= i < j < entries.len() && packed_sort_key((#[trigger] entries[i]).0)
            == packed_sort_key((#[trigger] entries[j]).0) ==> first_met(
            pixels,
            PixelRGBA::spec_from_hex_rgba(entries[i].0),
        ) < first_met(pixels, PixelRGBA::spec_from_hex_rgba(entries[j].0))
}

/// A stable sort of entries that stand in the order in which their colours are first
/// met leaves entries with equal keys in that order.
proof fn lemma_stable_sort_keeps_order_met(
    before: Seq<(u32, usize)>,
    after: Seq<(u32, usize)>,
    pixels: Seq<PixelRGBA>,
)
    requires
        met_in_order(before, pixels),
        before.to_multiset() == after.to_multiset(),
        equal_keys_keep_order(before, after),
    ensures
        equal_keys_in_order_met(after, pixels),
{
    broadcast use to_multiset_contains;

    reveal(equal_keys_keep_order);
    assert forall|i: int, j: int|
        0 <= i < j < after.len() && packed_sort_key((#[trigger] after[i]).0) == packed_sort_key(
            (#[trigger] after[j]).0,
        ) implies first_met(pixels, PixelRGBA::spec_from_hex_rgba(after[i].0)) < first_met(
        pixels,
        PixelRGBA::spec_from_hex_rgba(after[j].0),
    ) by {
        assert(after.contains(after[i]));
        assert(after.contains(after[j]));
        assert(before.to_multiset().count(after[i]) > 0);
        assert(before.to_multiset().count(after[j]) > 0);
        let a = choose|a: int| 0 <= a < before.len() && before[a] == after[i];
        let b = choose|b: int| 0 <= b < before.len() && before[b] == after[j];
        assert(before[a] == after[i] && before[b] == after[j]);
        assert(a < b);
    }
}

/// Counts the visible pixels of a buffer by colour, in the order in which the
/// colours are first met.
fn count_colors(pixels: &Vec<PixelRGBA>) -> (map: IndexMap<u32, usize, RandomState>)
    ensures
        counts_pixels(map_entries(map), pixels@),
        met_in_order(map_entries(map), pixels@),
{
    let mut map = map_new();
    let mut i: usize = 0;
    proof {
        assert(counts_pixels(map_entries(map), pixels@.take(0)));
    }
    while i < pixels.len()
        invariant
            i <= pixels.len(),
            counts_pixels(map_entries(map), pixels@.take(i as int)),
            met_in_order(map_entries(map), pixels@.take(i as int)),
        decreases pixels.len() - i,
    {
        let pixel = pixels[i];
        let ghost before = map_entries(map);
        let ghost seen = pixels@.take(i as int);
        proof {
            assert(pixels@.take(i + 1) =~= seen.push(pixel));
        }
        if pixel.a != 0 {
            let key = pixel.to_hex_rgba();
            match map_get_index_of(&map, key) {
                Some(index) => {
                    let entry = map_get_index(&map, index);
                    let count = entry.unwrap().1;
                    proof {
                        lemma_hex_rgba_round_trip(key);
                        lemma_occurrences_positive(seen, pixel);
                        lemma_count_again(before, seen, pixel, index as int);
                    }
                    let result = map_insert_full(&mut map, key, count + 1);
                    proof {
                        if result.1.is_none() {
                            assert(before[index as int].0 != key);
                        }
                        assert(before[result.0 as int].0 == key);
                        assert(result.0 == index);
                        lemma_met_in_order_kept(before, map_entries(map), seen, pixel);
                    }
                },
                None => {
                    proof {
                        lemma_count_first(before, seen, pixel);
                    }
                    let result = map_insert_full(&mut map, key, 1);
                    proof {
                        if result.1.is_some() {
                            assert(before[result.0 as int].0 == key);
                        }
                        lemma_met_in_order_added(before, seen, pixel, 1);
                    }
                },
            }
        } else {
            proof {
                lemma_count_transparent(before, seen, pixel);
                lemma_met_in_order_kept(before, before, seen, pixel);
            }
        }
        i += 1;
    }
    proof {
        assert(pixels@.take(pixels.len() as int) =~= pixels@);
    }
    map
}

/// What is known of one colour of an image: how often it occurs, the two symbols
/// that stand for it on a pattern, and how it looks when stitched.
pub struct ColorInfo {
    pub color: PixelRGBA,
    pub count: usize,
    pub symbol: Bitmap,
    pub symbol_alphanum: Bitmap,
    /// Whether the colour is light enough for a black symbol to be legible on it;
    /// on a colour that is not, the symbol is drawn in white.
    pub is_light: bool,
    pub stitches_premultiplied: Vec<Bitmap>,
}

impl ColorInfo {
    /// The symbols and the stitch images are well-formed bitmaps.
    pub open spec fn wf(&self) -> bool {
        &&& self.symbol.wf()
        &&& self.symbol_alphanum.wf()
        &&& forall|i: int|
            0 <= i < self.stitches_premultiplied.len() ==> (
            #[trigger] self.stitches_premultiplied[i]).wf()
    }

    /// The symbol is no larger than a pattern cell.
    pub open spec fn symbol_fits_cell(&self) -> bool {
        self.symbol.width <= TILE_SIZE && self.symbol.height <= TILE_SIZE
    }

    /// The entry can be drawn into a legend: it is well-formed and its symbol fits a cell.
    pub open spec fn drawable(&self) -> bool {
        self.wf() && self.symbol_fits_cell()
    }
}

/// Whether some entry is for the colour `color`.
pub open spec fn has_color(entries: Seq<ColorInfo>, color: PixelRGBA) -> bool {
    exists|i: int| 0 <= i < entries.len() && (#[trigger] entries[i]).color == color
}

/// The place of the entry for `color`, where there is one.
pub open spec fn position_of(entries: Seq<ColorInfo>, color: PixelRGBA) -> int {
    choose|i: int| 0 <= i < entries.len() && (#[trigger] entries[i]).color == color
}

/// No two entries are for the same colour.
pub open spec fn distinct_colors(entries: Seq<ColorInfo>) -> bool {
    forall|i: int, j: int|
        0 <= i < entries.len() && 0 <= j < entries.len() && i != j ==> (
        #[trigger] entries[i]).color != (#[trigger] entries[j]).color
}

/// `entries` lists the colours of `pixels`: exactly one entry for each colour that a
/// visible pixel has, holding how many pixels have it.
pub open spec fn is_usage_of(entries: Seq<ColorInfo>, pixels: Seq<PixelRGBA>) -> bool {
    &&& distinct_colors(entries)
    &&& forall|i: int|
        0 <= i < entries.len() ==> {
            &&& (#[trigger] entries[i]).color.a != 0
            &&& entries[i].count >= 1
            &&& entries[i].count == occurrences(pixels, entries[i].color)
        }
    &&& forall|j: int|
        0 <= j < pixels.len() && (#[trigger] pixels[j]).a != 0 ==> has_color(entries, pixels[j])
}

/// The sum of the counts of all entries.
pub open spec fn total_count(entries: Seq<ColorInfo>) -> nat
    decreases entries.len(),
{
    if entries.len() == 0 {
        0
    } else {
        total_count(entries.drop_last()) + entries.last().count as nat
    }
}

/// The sum of the counts of the first entries is at most the sum of all.
pub proof fn lemma_total_count_monotonic(entries: Seq<ColorInfo>, count: int)
    requires
        0 <= count <= entries.len(),
    ensures
        total_count(entries.take(count)) <= total_count(entries),
    decreases entries.len(),
{
    if count == entries.len() {
        assert(entries.take(count) =~= entries);
    } else {
        lemma_total_count_monotonic(entries.drop_last(), count);
        assert(entries.drop_last().take(count) =~= entries.take(count));
    }
}

/// The entries are in non-decreasing order of hue, then lightness, then saturation.
pub open spec fn sorted_by_hue_lightness_saturation(entries: Seq<ColorInfo>) -> bool {
    forall|i: int, j: int|
        0 <= i < j < entries.len() ==> (#[trigger] entries[i]).color.sort_key().less_or_equal(
            (#[trigger] entries[j]).color.sort_key(),
        )
}

/// Entries whose colours are equal in the order of hue, lightness and saturation
/// stand in the order in which their colours are first met among the pixels.
pub open spec fn ties_in_order_met(entries: Seq<ColorInfo>, pixels: Seq<PixelRGBA>) -> bool {
    forall|i: int, j: int|
        0 <= i < j < entries.len() && (#[trigger] entries[i]).color.sort_key() == (
        #[trigger] entries[j]).color.sort_key() ==> first_met(pixels, entries[i].color)
            < first_met(pixels, entries[j].color)
}

/// The colours that the visible pixels among `pixels` have.
pub open spec fn visible_colors(pixels: Seq<PixelRGBA>) -> Set<PixelRGBA> {
    Set::new(|color: PixelRGBA| color.a != 0 && pixels.contains(color))
}

/// The colours of the entries, in their order.
pub open spec fn colors_of(entries: Seq<ColorInfo>) -> Seq<PixelRGBA> {
    Seq::new(entries.len(), |i: int| entries[i].color)
}

/// A usage list has as many entries as the pixels have visible colours.
pub proof fn lemma_usage_len(entries: Seq<ColorInfo>, pixels: Seq<PixelRGBA>)
    requires
        is_usage_of(entries, pixels),
    ensures
        visible_colors(pixels).finite(),
        entries.len() == visible_colors(pixels).len(),
{
    let colors = colors_of(entries);
    assert(colors.no_duplicates());
    colors.unique_seq_to_set();
    seq_to_set_is_finite(colors);
    assert forall|color: PixelRGBA| colors.to_set().contains(color) implies visible_colors(
        pixels,
    ).contains(color) by {
        let i = choose|i: int| 0 <= i < colors.len() && colors[i] == color;
        assert(entries[i].color == color);
        lemma_occurrences_positive(pixels, color);
        let j = choose|j: int| 0 <= j < pixels.len() && #[trigger] pixels[j] == color;
        assert(pixels.contains(color));
    }
    assert forall|color: PixelRGBA| visible_colors(pixels).contains(color) implies colors.to_set().contains(
        color,
    ) by {
        let j = choose|j: int| 0 <= j < pixels.len() && pixels[j] == color;
        assert(has_color(entries, pixels[j]));
        let i = choose|i: int| 0 <= i < entries.len() && (#[trigger] entries[i]).color == color;
        assert(colors[i] == color);
    }
    assert(colors.to_set() =~= visible_colors(pixels));
}

/// Why a colour mapping could not be made.
#[derive(Debug, Clone, Copy, PartialEq, Eq, Structural)]
pub enum MappingError {
    /// The image has more colours than there are symbols.
    InsufficientSymbols { colors: usize, symbols: usize },
    /// The image has more colours than there are alphanumeric symbols.
    InsufficientAlphanumSymbols { colors: usize, symbols: usize },
}

/// The colours of an image, each with its count and symbols, in the order in which
/// legends list them; the entry for a colour is found by the colour.
pub struct ColorMapping {
    index: IndexMap<u32, usize, RandomState>,
    infos: Vec<ColorInfo>,
}

impl View for ColorMapping {
    type V = Seq<ColorInfo>;

    closed spec fn view(&self) -> Seq<ColorInfo> {
        self.infos@
    }
}

/// The entries of the index are the colours and counts of `infos`, in the same order.
spec fn index_matches(entries: Seq<(u32, usize)>, infos: Seq<ColorInfo>) -> bool {
    &&& entries.len() == infos.len()
    &&& forall|i: int|
        0 <= i < infos.len() ==> entries[i] == ((#[trigger] infos[i]).color.spec_to_hex_rgba(), infos[i].count)
}

proof fn lemma_total_is_sum(entries: Seq<(u32, usize)>, infos: Seq<ColorInfo>)
    requires
        index_matches(entries, infos),
    ensures
        total_count(infos) == sum_counts(entries),
    decreases infos.len(),
{
    if infos.len() > 0 {
        assert(index_matches(entries.drop_last(), infos.drop_last())) by {
            assert forall|i: int| 0 <= i < infos.len() - 1 implies entries.drop_last()[i] == ((
            #[trigger] infos.drop_last()[i]).color.spec_to_hex_rgba(), infos.drop_last()[i].count) by {
                assert(entries[i] == (infos[i].color.spec_to_hex_rgba(), infos[i].count));
            }
        }
        lemma_total_is_sum(entries.drop_last(), infos.drop_last());
        assert(entries.last() == entries[entries.len() - 1]);
        assert(infos.last() == infos[infos.len() - 1]);
    }
}

/// What the index says of the pixels, the list of entries says too.
proof fn lemma_usage_from_counts(
    entries: Seq<(u32, usize)>,
    infos: Seq<ColorInfo>,
    pixels: Seq<PixelRGBA>,
)
    requires
        index_matches(entries, infos),
        counts_pixels(entries, pixels),
    ensures
        is_usage_of(infos, pixels),
        total_count(infos) == visible_count(pixels),
{
    lemma_total_is_sum(entries, infos);
    assert forall|i: int, j: int|
        0 <= i < infos.len() && 0 <= j < infos.len() && i != j implies (#[trigger] infos[i]).color != (
    #[trigger] infos[j]).color by {
        assert(entries[i].0 != entries[j].0);
    }
    assert forall|i: int| 0 <= i < infos.len() implies {
        &&& (#[trigger] infos[i]).color.a != 0
        &&& infos[i].count >= 1
        &&& infos[i].count == occurrences(pixels, infos[i].color)
    } by {
        assert(entries[i].0 == infos[i].color.spec_to_hex_rgba());
        lemma_hex_rgba_unpack(infos[i].color);
    }
    assert forall|j: int| 0 <= j < pixels.len() && (#[trigger] pixels[j]).a != 0 implies has_color(
        infos,
        pixels[j],
    ) by {
        let color = pixels[j];
        lemma_occurrences_positive(pixels, color);
        assert(has_key(entries, color.spec_to_hex_rgba()));
        let i = choose|i: int|
            0 <= i < entries.len() && (#[trigger] entries[i]).0 == color.spec_to_hex_rgba();
        assert(infos[i].color.spec_to_hex_rgba() == color.spec_to_hex_rgba());
        lemma_hex_rgba_injective(infos[i].color, color);
    }
}

impl ColorMapping {
    /// The index and the list agree, no colour is listed twice, and every entry is well-formed.
    pub closed spec fn wf(&self) -> bool {
        &&& index_matches(map_entries(self.index), self.infos@)
        &&& distinct_keys(map_entries(self.index))
        &&& forall|i: int| 0 <= i < self.infos.len() ==> (#[trigger] self.infos[i]).wf()
    }

    /// In a well-formed mapping no colour is listed twice and every entry is well-formed.
    pub proof fn lemma_wf(&self)
        requires
            self.wf(),
        ensures
            distinct_colors(self@),
            forall|i: int| 0 <= i < self@.len() ==> (#[trigger] self@[i]).wf(),
    {
        let entries = map_entries(self.index);
        assert forall|i: int, j: int|
            0 <= i < self@.len() && 0 <= j < self@.len() && i != j implies (#[trigger] self@[i]).color != (
        #[trigger] self@[j]).color by {
            assert(entries[i].0 != entries[j].0);
        }
    }

    /// The number of colours.
    pub fn len(&self) -> (len: usize)
        ensures
            len == self@.len(),
    {
        self.infos.len()
    }

    /// All entries, in their order.
    pub fn entries(&self) -> (entries: &Vec<ColorInfo>)
        ensures
            entries@ == self@,
    {
        &self.infos
    }

    /// The sum of the counts of all entries, or `None` where it is too large for `usize`.
    pub fn total_count(&self) -> (total: Option<usize>)
        ensures
            match total {
                Some(sum) => sum == total_count(self@),
                None => total_count(self@) > usize::MAX,
            },
    {
        let mut sum: usize = 0;
        let mut i: usize = 0;
        while i < self.infos.len()
            invariant
                i <= self.infos.len(),
                sum == total_count(self.infos@.take(i as int)),
            decreases self.infos.len() - i,
        {
            proof {
                assert(self.infos@.take(i + 1).drop_last() =~= self.infos@.take(i as int));
                lemma_total_count_monotonic(self.infos@, i + 1);
            }
            match sum.checked_add(self.infos[i].count) {
                Some(next) => {
                    sum = next;
                },
                None => {
                    return None;
                },
            }
            i += 1;
        }
        proof {
            assert(self.infos@.take(self.infos@.len() as int) =~= self.infos@);
        }
        Some(sum)
    }

    /// Says how the colour of the entry at `index` looks: whether it is light, and its
    /// stitch images. Everything else stays as it is.
    pub fn set_preview(&mut self, index: usize, is_light: bool, stitches_premultiplied: Vec<Bitmap>)
        requires
            old(self).wf(),
            index < old(self)@.len(),
            forall|i: int|
                0 <= i < stitches_premultiplied.len() ==> (#[trigger] stitches_premultiplied[i]).wf(),
        ensures
            final(self).wf(),
            final(self)@.len() == old(self)@.len(),
            forall|i: int|
                0 <= i < old(self)@.len() && i != index ==> #[trigger] final(self)@[i] == old(
                    self,
                )@[i],
            final(self)@[index as int].color == old(self)@[index as int].color,
            final(self)@[index as int].count == old(self)@[index as int].count,
            final(self)@[index as int].symbol == old(self)@[index as int].symbol,
            final(self)@[index as int].symbol_alphanum == old(self)@[index as int].symbol_alphanum,
            final(self)@[index as int].is_light == is_light,
            final(self)@[index as int].stitches_premultiplied == stitches_premultiplied,
    {
        let ghost before = self.infos@;
        let info = self.infos.remove(index);
        let changed = ColorInfo {
            color: info.color,
            count: info.count,
            symbol: info.symbol,
            symbol_alphanum: info.symbol_alphanum,
            is_light,
            stitches_premultiplied,
        };
        self.infos.insert(index, changed);
        proof {
            assert(self.infos@ =~= before.update(index as int, changed));
            let entries = map_entries(self.index);
            assert forall|i: int| 0 <= i < self.infos@.len() implies entries[i] == ((
            #[trigger] self.infos@[i]).color.spec_to_hex_rgba(), self.infos@[i].count) by {
                assert(entries[i] == (before[i].color.spec_to_hex_rgba(), before[i].count));
            }
            assert forall|i: int| 0 <= i < self.infos@.len() implies (#[trigger] self.infos@[i]).wf() by {
                assert(before[i].wf());
            }
        }
    }

    /// The place of the entry for `color`, or `None` when the mapping has none.
    pub fn index_of(&self, color: &PixelRGBA) -> (place: Option<usize>)
        requires
            self.wf(),
        ensures
            match place {
                Some(index) => index < self@.len() && self@[index as int].color == *color
                    && index == position_of(self@, *color),
                None => !has_color(self@, *color),
            },
    {
        let key = color.to_hex_rgba();
        let place = map_get_index_of(&self.index, key);
        proof {
            let entries = map_entries(self.index);
            match place {
                Some(index) => {
                    lemma_hex_rgba_injective(self@[index as int].color, *color);
                    let chosen = position_of(self@, *color);
                    if chosen != index {
                        assert(entries[chosen].0 != entries[index as int].0);
                    }
                },
                None => {
                    if has_color(self@, *color) {
                        let i = choose|i: int|
                            0 <= i < self@.len() && (#[trigger] self@[i]).color == *color;
                        assert(entries[i].0 == key);
                    }
                },
            }
        }
        place
    }

    /// The entry at a place.
    pub fn get_index(&self, index: usize) -> (info: &ColorInfo)
        requires
            index < self@.len(),
        ensures
            *info == self@[index as int],
    {
        &self.infos[index]
    }

    /// The entry for `color`, or `None` when the mapping has none.
    pub fn get(&self, color: &PixelRGBA) -> (found: Option<&ColorInfo>)
        requires
            self.wf(),
        ensures
            match found {
                Some(info) => has_color(self@, *color) && *info == self@[position_of(
                    self@,
                    *color,
                )],
                None => !has_color(self@, *color),
            },
    {
        match self.index_of(color) {
            Some(index) => Some(&self.infos[index]),
            None => None,
        }
    }
}

impl ColorInfo {
    /// An entry as the scan of an image leaves it: without symbols and stitch images,
    /// and taken to be light.
    pub open spec fn is_bare(&self) -> bool {
        &&& self.symbol@ == Image::filled(0, 0, outside())
        &&& self.symbol_alphanum@ == Image::filled(0, 0, outside())
        &&& self.is_light
        &&& self.stitches_premultiplied@.len() == 0
    }
}

/// Scans an image: one entry for each colour that a visible pixel has, with the number
/// of such pixels, sorted by hue, then lightness, then saturation.
pub fn image_extract_colors_and_counts(image: &Bitmap) -> (mapping: ColorMapping)
    ensures
        mapping.wf(),
        is_usage_of(mapping@, image.data@),
        total_count(mapping@) == visible_count(image.data@),
        sorted_by_hue_lightness_saturation(mapping@),
        ties_in_order_met(mapping@, image.data@),
        forall|i: int| 0 <= i < mapping@.len() ==> (#[trigger] mapping@[i]).is_bare(),
{
    let mut index = count_colors(&image.data);
    let ghost unsorted = map_entries(index);
    map_sort_by_color(&mut index);
    let ghost entries = map_entries(index);
    proof {
        lemma_counts_pixels_permuted(unsorted, entries, image.data@);
        lemma_stable_sort_keeps_order_met(unsorted, entries, image.data@);
    }
    let len = map_len(&index);
    let mut infos: Vec<ColorInfo> = Vec::new();
    let mut i: usize = 0;
    while i < len
        invariant
            i <= len,
            len == entries.len(),
            entries == map_entries(index),
            infos.len() == i,
            forall|k: int|
                0 <= k < i ==> {
                    &&& entries[k] == ((#[trigger] infos[k]).color.spec_to_hex_rgba(), infos[k].count)
                    &&& infos[k].color == PixelRGBA::spec_from_hex_rgba(entries[k].0)
                    &&& infos[k].wf()
                    &&& infos[k].is_bare()
                },
        decreases len - i,
    {
        let entry = map_get_index(&index, i).unwrap();
        let info = ColorInfo {
            color: PixelRGBA::from_hex_rgba(entry.0),
            count: entry.1,
            symbol: Bitmap::new_empty(),
            symbol_alphanum: Bitmap::new_empty(),
            is_light: true,
            stitches_premultiplied: Vec::new(),
        };
        infos.push(info);
        i += 1;
    }
    proof {
        lemma_usage_from_counts(entries, infos@, image.data@);
        assert forall|a: int, b: int| 0 <= a < b < infos@.len() implies (#[trigger] infos@[a]).color.sort_key().less_or_equal(
            (#[trigger] infos@[b]).color.sort_key(),
        ) by {
            reveal(keys_sorted);
            assert(packed_sort_key(entries[a].0).less_or_equal(packed_sort_key(entries[b].0)));
        }
        assert forall|a: int, b: int|
            0 <= a < b < infos@.len() && (#[trigger] infos@[a]).color.sort_key() == (
            #[trigger] infos@[b]).color.sort_key() implies first_met(
            image.data@,
            infos@[a].color,
        ) < first_met(image.data@, infos@[b].color) by {
            assert(packed_sort_key(entries[a].0) == packed_sort_key(entries[b].0));
        }
    }
    ColorMapping { index, infos }
}

/// Scans an image and gives each of its colours, in their sorted order, the symbol
/// and the alphanumeric symbol of its place. Fails when either list of symbols is
/// shorter than the list of colours; the symbols are looked at first.
pub fn create_color_mappings_from_image(
    image: &Bitmap,
    symbols: &Vec<Bitmap>,
    symbols_alphanum: &Vec<Bitmap>,
) -> (result: Result<ColorMapping, MappingError>)
    requires
        forall|i: int| 0 <= i < symbols.len() ==> (#[trigger] symbols[i]).wf(),
        forall|i: int| 0 <= i < symbols_alphanum.len() ==> (#[trigger] symbols_alphanum[i]).wf(),
    ensures
        visible_colors(image.data@).finite(),
        match result {
            Ok(mapping) => {
                &&& visible_colors(image.data@).len() <= symbols.len()
                &&& visible_colors(image.data@).len() <= symbols_alphanum.len()
                &&& mapping.wf()
                &&& is_usage_of(mapping@, image.data@)
                &&& total_count(mapping@) == visible_count(image.data@)
                &&& sorted_by_hue_lightness_saturation(mapping@)
                &&& ties_in_order_met(mapping@, image.data@)
                &&& forall|i: int|
                    0 <= i < mapping@.len() ==> {
                        &&& (#[trigger] mapping@[i]).symbol@ == symbols[i]@
                        &&& mapping@[i].symbol_alphanum@ == symbols_alphanum[i]@
                        &&& mapping@[i].is_light
                        &&& mapping@[i].stitches_premultiplied@.len() == 0
                    }
            },
            Err(MappingError::InsufficientSymbols { colors, symbols: available }) => {
                &&& colors == visible_colors(image.data@).len()
                &&& available == symbols.len()
                &&& available < colors
            },
            Err(MappingError::InsufficientAlphanumSymbols { colors, symbols: available }) => {
                &&& colors == visible_colors(image.data@).len()
                &&& colors <= symbols.len()
                &&& available == symbols_alphanum.len()
                &&& available < colors
            },
        },
{
    let bare = image_extract_colors_and_counts(image);
    proof {
        lemma_usage_len(bare@, image.data@);
    }
    let len = bare.len();
    if symbols.len() < len {
        return Err(MappingError::InsufficientSymbols { colors: len, symbols: symbols.len() });
    }
    if symbols_alphanum.len() < len {
        return Err(
            MappingError::InsufficientAlphanumSymbols {
                colors: len,
                symbols: symbols_alphanum.len(),
            },
        );
    }
    let ColorMapping { index, infos: bare_infos } = bare;
    let mut infos: Vec<ColorInfo> = Vec::new();
    let mut i: usize = 0;
    while i < len
        invariant
            i <= len,
            len == bare_infos.len(),
            len <= symbols.len(),
            len <= symbols_alphanum.len(),
            infos.len() == i,
            forall|k: int| 0 <= k < symbols.len() ==> (#[trigger] symbols[k]).wf(),
            forall|k: int|
                0 <= k < symbols_alphanum.len() ==> (#[trigger] symbols_alphanum[k]).wf(),
            forall|k: int|
                0 <= k < i ==> {
                    &&& (#[trigger] infos[k]).color == bare_infos[k].color
                    &&& infos[k].count == bare_infos[k].count
                    &&& infos[k].symbol@ == symbols[k]@
                    &&& infos[k].symbol_alphanum@ == symbols_alphanum[k]@
                    &&& infos[k].is_light
                    &&& infos[k].stitches_premultiplied@.len() == 0
                    &&& infos[k].wf()
                },
        decreases len - i,
    {
        let info = ColorInfo {
            color: bare_infos[i].color,
            count: bare_infos[i].count,
            symbol: symbols[i].copy(),
            symbol_alphanum: symbols_alphanum[i].copy(),
            is_light: true,
            stitches_premultiplied: Vec::new(),
        };
        infos.push(info);
        i += 1;
    }
    let mapping = ColorMapping { index, infos };
    proof {
        let entries = map_entries(mapping.index);
        assert(index_matches(entries, mapping.infos@)) by {
            assert forall|k: int| 0 <= k < mapping.infos@.len() implies entries[k] == ((
            #[trigger] mapping.infos@[k]).color.spec_to_hex_rgba(), mapping.infos@[k].count) by {
                assert(entries[k] == (bare_infos@[k].color.spec_to_hex_rgba(), bare_infos@[k].count));
            }
        }
        lemma_same_colors_and_counts(bare_infos@, mapping@, image.data@);
    }
    Ok(mapping)
}

/// What holds of a list of entries by their colours and counts alone holds of every
/// list with the same colours and counts.
proof fn lemma_same_colors_and_counts(
    before: Seq<ColorInfo>,
    after: Seq<ColorInfo>,
    pixels: Seq<PixelRGBA>,
)
    requires
        before.len() == after.len(),
        forall|k: int|
            0 <= k < after.len() ==> (#[trigger] after[k]).color == before[k].color && after[k].count
                == before[k].count,
    ensures
        is_usage_of(before, pixels) ==> is_usage_of(after, pixels),
        total_count(after) == total_count(before),
        sorted_by_hue_lightness_saturation(before) ==> sorted_by_hue_lightness_saturation(after),
        ties_in_order_met(before, pixels) ==> ties_in_order_met(after, pixels),
    decreases before.len(),
{
    if before.len() > 0 {
        lemma_same_colors_and_counts(before.drop_last(), after.drop_last(), pixels);
    }
    if is_usage_of(before, pixels) {
        assert forall|i: int, j: int|
            0 <= i < after.len() && 0 <= j < after.len() && i != j implies (#[trigger] after[i]).color != (
        #[trigger] after[j]).color by {
            assert(before[i].color != before[j].color);
        }
        assert forall|i: int| 0 <= i < after.len() implies {
            &&& (#[trigger] after[i]).color.a != 0
            &&& after[i].count >= 1
            &&& after[i].count == occurrences(pixels, after[i].color)
        } by {
            assert(before[i].color.a != 0);
        }
        assert forall|j: int| 0 <= j < pixels.len() && (#[trigger] pixels[j]).a != 0 implies has_color(
            after,
            pixels[j],
        ) by {
            assert(has_color(before, pixels[j]));
            let i = choose|i: int|
                0 <= i < before.len() && (#[trigger] before[i]).color == pixels[j];
            assert(after[i].color == pixels[j]);
        }
    }
    if sorted_by_hue_lightness_saturation(before) {
        assert forall|a: int, b: int| 0 <= a < b < after.len() implies (#[trigger] after[a]).color.sort_key().less_or_equal(
            (#[trigger] after[b]).color.sort_key(),
        ) by {
            assert(before[a].color.sort_key().less_or_equal(before[b].color.sort_key()));
        }
    }
    if ties_in_order_met(before, pixels) {
        assert forall|a: int, b: int|
            0 <= a < b < after.len() && (#[trigger] after[a]).color.sort_key() == (
            #[trigger] after[b]).color.sort_key() implies first_met(pixels, after[a].color)
            < first_met(pixels, after[b].color) by {
            assert(before[a].color == after[a].color && before[b].color == after[b].color);
        }
    }
}

} // verus!
