//! Frame selection: which entries of a directory listing are scan images of a
//! product, and which of those go into the animation.

use vstd::prelude::*;
use crate::error::RadarError;

verus! {

/// The largest number of frames in one animation.
pub const MAX_FRAMES: usize = 7;

/// `needle` stands in `hay` at position `at`.
pub open spec fn occurs_at(hay: Seq<char>, needle: Seq<char>, at: int) -> bool {
    0 <= at && at + needle.len() <= hay.len() && hay.subrange(at, at + needle.len()) == needle
}

/// `needle` stands somewhere in `hay`.
pub open spec fn has_substring(hay: Seq<char>, needle: Seq<char>) -> bool {
    exists|at: int| occurs_at(hay, needle, at)
}

/// The extension by which an image file is recognised.
pub open spec fn image_extension() -> Seq<char> {
    ".png"@
}

/// The matching rule: a file is a scan image of the product if its name holds
/// both the product's token and the image extension.
pub open spec fn is_scan_name(name: Seq<char>, token: Seq<char>) -> bool {
    has_substring(name, token) && has_substring(name, image_extension())
}

/// The positions in `listing` of the scan images of the product, ascending.
pub open spec fn matching(listing: Seq<Seq<char>>, token: Seq<char>) -> Seq<int>
    decreases listing.len(),
{
    if listing.len() == 0 {
        Seq::empty()
    } else {
        let earlier = matching(listing.drop_last(), token);
        if is_scan_name(listing.last(), token) {
            earlier.push(listing.len() - 1)
        } else {
            earlier
        }
    }
}

/// The last `limit` entries of `positions`, or all of them if there are fewer.
pub open spec fn most_recent(positions: Seq<int>, limit: nat) -> Seq<int> {
    if positions.len() <= limit {
        positions
    } else {
        positions.subrange(positions.len() - limit, positions.len() as int)
    }
}

/// The positions in `listing` of the scans that are shown: the most recent
/// `MAX_FRAMES` scan images of the product, oldest first.
pub open spec fn selection(listing: Seq<Seq<char>>, token: Seq<char>) -> Seq<int> {
    most_recent(matching(listing, token), MAX_FRAMES as nat)
}

/// The names in a listing, each as a sequence of characters.
pub open spec fn names_of(listing: Seq<String>) -> Seq<Seq<char>> {
    Seq::new(listing.len(), |i: int| listing[i]@)
}

/// Positions as mathematical integers.
pub open spec fn as_ints(positions: Seq<usize>) -> Seq<int> {
    Seq::new(positions.len(), |i: int| positions[i] as int)
}

/// The positions that `matching` gives lie in the listing, ascend strictly,
/// and are exactly the positions of the scan images.
pub proof fn lemma_matching_positions(listing: Seq<Seq<char>>, token: Seq<char>)
    ensures
        matching(listing, token).len() <= listing.len(),
        forall|k: int|
            0 <= k < matching(listing, token).len() ==> 0 <= #[trigger] matching(listing, token)[k]
                < listing.len() && is_scan_name(listing[matching(listing, token)[k]], token),
        forall|j: int, k: int|
            0 <= j < k < matching(listing, token).len() ==> matching(listing, token)[j]
                < matching(listing, token)[k],
        forall|i: int|
            0 <= i < listing.len() && is_scan_name(#[trigger] listing[i], token) ==> matching(
                listing,
                token,
            ).contains(i),
    decreases listing.len(),
{
    if listing.len() > 0 {
        let shorter = listing.drop_last();
        lemma_matching_positions(shorter, token);
        let earlier = matching(shorter, token);
        let all = matching(listing, token);
        assert forall|i: int| 0 <= i < listing.len() && is_scan_name(
            #[trigger] listing[i],
            token,
        ) implies all.contains(i) by {
            if i < listing.len() - 1 {
                assert(shorter[i] == listing[i]);
                assert(earlier.contains(i));
                let k = choose|k: int| 0 <= k < earlier.len() && earlier[k] == i;
                assert(all[k] == i);
            } else {
                assert(all[all.len() - 1] == i);
            }
        }
        assert forall|k: int| 0 <= k < all.len() implies 0 <= #[trigger] all[k] < listing.len()
            && is_scan_name(listing[all[k]], token) by {
            if k < earlier.len() {
                assert(all[k] == earlier[k]);
                assert(shorter[earlier[k]] == listing[earlier[k]]);
            }
        }
    }
}

/// An animation has as many frames as there are scan images of the product,
/// up to `MAX_FRAMES`.
pub proof fn lemma_selection_length(listing: Seq<Seq<char>>, token: Seq<char>)
    ensures
        selection(listing, token).len() == if matching(listing, token).len() <= MAX_FRAMES {
            matching(listing, token).len()
        } else {
            MAX_FRAMES as nat
        },
        selection(listing, token).len() <= MAX_FRAMES,
{
}

/// The selected scans are the last of the product's scan images, in the order
/// of the listing: the selection is the end of `matching`.
pub proof fn lemma_selection_is_most_recent(listing: Seq<Seq<char>>, token: Seq<char>)
    ensures
        ({
            let all = matching(listing, token);
            let chosen = selection(listing, token);
            forall|k: int|
                0 <= k < chosen.len() ==> #[trigger] chosen[k] == all[all.len() - chosen.len() + k]
        }),
{
}

/// Selection never reorders. Whatever strict order the listing is sorted by
/// (for a listing of scan files, the order of their timestamps), the selected
/// names are sorted by it too, strictly ascending.
pub proof fn lemma_selection_keeps_order(
    listing: Seq<Seq<char>>,
    token: Seq<char>,
    before: spec_fn(Seq<char>, Seq<char>) -> bool,
)
    requires
        forall|i: int, j: int| 0 <= i < j < listing.len() ==> before(listing[i], listing[j]),
    ensures
        ({
            let chosen = selection(listing, token);
            forall|j: int, k: int|
                0 <= j < k < chosen.len() ==> before(
                    #[trigger] listing[chosen[j]],
                    #[trigger] listing[chosen[k]],
                )
        }),
{
    lemma_matching_positions(listing, token);
    lemma_selection_is_most_recent(listing, token);
    let all = matching(listing, token);
    let chosen = selection(listing, token);
    assert forall|j: int, k: int| 0 <= j < k < chosen.len() implies before(
        #[trigger] listing[chosen[j]],
        #[trigger] listing[chosen[k]],
    ) by {
        let shift = all.len() - chosen.len();
        assert(chosen[j] == all[shift + j]);
        assert(chosen[k] == all[shift + k]);
        assert(all[shift + j] < all[shift + k]);
        assert(0 <= all[shift + j]);
        assert(all[shift + k] < listing.len());
    }
}

/// The characters of a string, one by one.
pub fn chars_of(text: &str) -> (chars: Vec<char>)
    ensures
        chars@ == text@,
{
    let count: usize = text.unicode_len();
    let mut chars: Vec<char> = Vec::new();
    let mut i: usize = 0;
    while i < count
        invariant
            count == text@.len(),
            i <= count,
            chars@ == text@.subrange(0, i as int),
        decreases count - i,
    {
        chars.push(text.get_char(i));
        i += 1;
        assert(chars@ =~= text@.subrange(0, i as int));
    }
    assert(text@.subrange(0, count as int) =~= text@);
    chars
}

/// Whether `needle` stands in `hay` at position `at`.
fn stands_at(hay: &Vec<char>, needle: &Vec<char>, at: usize) -> (found: bool)
    requires
        at + needle@.len() <= hay@.len(),
    ensures
        found == occurs_at(hay@, needle@, at as int),
{
    let mut j: usize = 0;
    while j < needle.len()
        invariant
            at + needle.len() <= hay.len(),
            j <= needle.len(),
            forall|k: int| 0 <= k < j ==> hay@[at + k] == needle@[k],
        decreases needle.len() - j,
    {
        if hay[at + j] != needle[j] {
            assert(hay@.subrange(at as int, at + needle@.len())[j as int] != needle@[j as int]);
            return false;
        }
        j += 1;
    }
    assert(hay@.subrange(at as int, at + needle@.len()) =~= needle@);
    true
}

/// Whether `needle` stands somewhere in `hay`. The empty string stands in
/// every string.
pub fn contains(hay: &str, needle: &str) -> (found: bool)
    ensures
        found == has_substring(hay@, needle@),
{
    let hay_chars = chars_of(hay);
    let needle_chars = chars_of(needle);
    if needle_chars.len() > hay_chars.len() {
        return false;
    }
    let last: usize = hay_chars.len() - needle_chars.len();
    let mut at: usize = 0;
    loop
        invariant
            hay_chars@ == hay@,
            needle_chars@ == needle@,
            last + needle_chars.len() == hay_chars.len(),
            at <= last,
            forall|k: int| 0 <= k < at ==> !occurs_at(hay@, needle@, k),
        decreases last - at,
    {
        if stands_at(&hay_chars, &needle_chars, at) {
            return true;
        }
        if at == last {
            return false;
        }
        at += 1;
    }
}

/// The matching rule, on a file name and a product's token.
pub fn is_scan_file(name: &str, token: &str) -> (matches: bool)
    ensures
        matches == is_scan_name(name@, token@),
{
    contains(name, token) && contains(name, ".png")
}

/// The positions in `listing` of the scan images of the product, ascending.
pub fn matching_positions(listing: &Vec<String>, token: &str) -> (positions: Vec<usize>)
    ensures
        as_ints(positions@) == matching(names_of(listing@), token@),
{
    let ghost names = names_of(listing@);
    let mut found: Vec<usize> = Vec::new();
    let mut i: usize = 0;
    while i < listing.len()
        invariant
            names == names_of(listing@),
            i <= listing.len(),
            as_ints(found@) == matching(names.subrange(0, i as int), token@),
        decreases listing.len() - i,
    {
        let ghost seen = names.subrange(0, i as int + 1);
        let ghost before = found@;
        let is_scan = is_scan_file(listing[i].as_str(), token);
        proof {
            assert(seen.drop_last() =~= names.subrange(0, i as int));
            assert(seen.last() == listing@[i as int]@);
            assert(matching(seen, token@) == if is_scan_name(seen.last(), token@) {
                matching(seen.drop_last(), token@).push(seen.len() - 1)
            } else {
                matching(seen.drop_last(), token@)
            });
        }
        if is_scan {
            found.push(i);
            assert(as_ints(found@) =~= as_ints(before).push(i as int));
        }
        i += 1;
    }
    assert(names.subrange(0, listing@.len() as int) =~= names);
    found
}

/// The last `MAX_FRAMES` of the given positions, or all of them if there are
/// fewer.
pub fn keep_most_recent(found: &Vec<usize>) -> (kept: Vec<usize>)
    ensures
        as_ints(kept@) == most_recent(as_ints(found@), MAX_FRAMES as nat),
        kept@.len() <= MAX_FRAMES,
{
    let skipped: usize = if found.len() <= MAX_FRAMES {
        0
    } else {
        found.len() - MAX_FRAMES
    };
    let mut kept: Vec<usize> = Vec::new();
    let mut k: usize = skipped;
    while k < found.len()
        invariant
            skipped <= k <= found.len(),
            kept@ == found@.subrange(skipped as int, k as int),
        decreases found.len() - k,
    {
        kept.push(found[k]);
        k += 1;
        assert(kept@ =~= found@.subrange(skipped as int, k as int));
    }
    assert(as_ints(kept@) =~= most_recent(as_ints(found@), MAX_FRAMES as nat));
    kept
}

/// The positions in `listing` of the scans to show: the most recent
/// `MAX_FRAMES` scan images of the product, oldest first.
pub fn select_positions(listing: &Vec<String>, token: &str) -> (positions: Vec<usize>)
    ensures
        as_ints(positions@) == selection(names_of(listing@), token@),
        positions@.len() == selection(names_of(listing@), token@).len(),
        positions@.len() <= MAX_FRAMES,
        forall|k: int| 0 <= k < positions@.len() ==> #[trigger] positions@[k] < listing@.len(),
{
    let found = matching_positions(listing, token);
    let positions = keep_most_recent(&found);
    proof {
        let names = names_of(listing@);
        lemma_matching_positions(names, token@);
        lemma_selection_is_most_recent(names, token@);
        assert(as_ints(positions@).len() == positions@.len());
        assert forall|k: int| 0 <= k < positions@.len() implies #[trigger] positions@[k]
            < listing@.len() by {
            let all = matching(names, token@);
            let chosen = selection(names, token@);
            assert(as_ints(positions@)[k] == positions@[k]);
            assert(chosen[k] == all[all.len() - chosen.len() + k]);
        }
    }
    positions
}

/// The names of the scans to show, oldest first, or `NoFramesAvailable` where
/// the listing holds no scan image of the product.
pub fn select_recent(listing: &Vec<String>, token: &str) -> (chosen: Result<
    Vec<String>,
    RadarError,
>)
    ensures
        chosen is Err <==> matching(names_of(listing@), token@).len() == 0,
        chosen matches Err(error) ==> error == RadarError::NoFramesAvailable,
        chosen matches Ok(names) ==> {
            let positions = selection(names_of(listing@), token@);
            &&& names@.len() == positions.len()
            &&& forall|k: int|
                0 <= k < names@.len() ==> #[trigger] names@[k]@ == listing@[positions[k]]@
        },
{
    let positions = select_positions(listing, token);
    proof {
        lemma_selection_length(names_of(listing@), token@);
    }
    if positions.len() == 0 {
        return Err(RadarError::NoFramesAvailable);
    }
    let mut names: Vec<String> = Vec::new();
    let mut k: usize = 0;
    while k < positions.len()
        invariant
            k <= positions@.len(),
            names@.len() == k,
            forall|j: int| 0 <= j < positions@.len() ==> #[trigger] positions@[j] < listing@.len(),
            forall|j: int| 0 <= j < k ==> #[trigger] names@[j]@ == listing@[positions@[j] as int]@,
        decreases positions@.len() - k,
    {
        names.push(listing[positions[k]].clone());
        k += 1;
    }
    assert forall|j: int| 0 <= j < names@.len() implies #[trigger] names@[j]@ == listing@[selection(
        names_of(listing@),
        token@,
    )[j]]@ by {
        assert(as_ints(positions@)[j] == positions@[j]);
    }
    Ok(names)
}

} // verus!
