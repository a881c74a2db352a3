//! The hue deriver: a flat positional scan over a string.
//!
//! The scan walks the characters of the string; only the ASCII digits and
//! lowercase letters score, so on the inputs that matter the characters
//! are the bytes, and anything else scores position 0.
//!
//! Every character contributes `factor * position / 36` degrees of hue,
//! where `position` is its place in the scoring alphabet and `factor` is 36
//! for the first ten characters (the coarse selector that spreads colors
//! around the hue wheel) and 2/5 for all later ones (fine jitter that keeps
//! siblings of a long common prefix distinguishable). Both contributions
//! are whole multiples of 1/90 degree, so the accumulated hue is computed
//! exactly as an integer count of ninetieths of a degree: 90 per position
//! unit for the first ten characters, 1 per position unit afterwards.
//!
//! The accumulated hue is not wrapped into `[0, 360)`; callers wrap at the
//! rendering boundary (see [`wrap_ninetieths`]). An empty string maps to
//! hue 0 by construction.

use vstd::prelude::*;

use crate::alphabet::char_position;
use crate::alphabet::positioner;
use crate::normalize::clean;
use crate::normalize::keep_component;
use crate::normalize::lemma_filter_components_none;
use crate::normalize::lemma_normalize_flatten_len;
use crate::normalize::lower_chars;
use crate::normalize::normalize;
use crate::normalize::split_slash;

verus! {

/// One full turn of the hue wheel, 360 degrees, in ninetieths of a degree.
pub open spec fn full_turn_scaled() -> int {
    32400
}

/// The largest contribution of a single character, in ninetieths of a
/// degree: an alphabet-maximal character at one of the first ten indices.
pub open spec fn max_term_scaled() -> int {
    3150
}

/// The hue contribution of the character `c` at index `ix`, in ninetieths
/// of a degree.
pub open spec fn term_scaled(ix: int, c: char) -> int {
    if ix < 10 {
        90 * char_position(c)
    } else {
        char_position(c)
    }
}

/// The hue of a string, in ninetieths of a degree: the sum of the
/// per-character contributions.
pub open spec fn hue_scaled(s: Seq<char>) -> int
    decreases s.len(),
{
    if s.len() == 0 {
        0
    } else {
        hue_scaled(s.drop_last()) + term_scaled(s.len() - 1, s.last())
    }
}

/// The accumulated hue is never negative and grows by at most the maximal
/// per-character contribution.
pub proof fn lemma_hue_scaled_bounds(s: Seq<char>)
    ensures
        0 <= hue_scaled(s) <= max_term_scaled() * s.len(),
    decreases s.len(),
{
    if s.len() > 0 {
        lemma_hue_scaled_bounds(s.drop_last());
    }
}

/// Extending a string by one character adds that character's contribution.
pub proof fn lemma_hue_scaled_push(s: Seq<char>, c: char)
    ensures
        hue_scaled(s.push(c)) == hue_scaled(s) + term_scaled(s.len() as int, c),
{
    assert(s.push(c).drop_last() =~= s);
}

/// The hue of a string is a function of its characters alone: equal inputs
/// give equal hues, however often the derivation runs.
pub proof fn lemma_hue_deterministic(s1: Seq<char>, s2: Seq<char>)
    requires
        s1 == s2,
    ensures
        hue_scaled(s1) == hue_scaled(s2),
{
}

/// For a string made of one repeated character, the hue grows by the full
/// 90-ninetieth weight per position unit over the first ten characters and
/// by a single ninetieth per position unit afterwards: the growth rate
/// drops sharply past index ten.
pub proof fn lemma_hue_of_repeated(s: Seq<char>, c: char)
    requires
        forall|i: int| 0 <= i < s.len() ==> s[i] == c,
    ensures
        s.len() <= 10 ==> hue_scaled(s) == 90 * char_position(c) * s.len(),
        s.len() > 10 ==> hue_scaled(s) == 900 * char_position(c) + char_position(c) * (s.len()
            - 10),
    decreases s.len(),
{
    if s.len() > 0 {
        let p = char_position(c);
        let n = s.len() as int;
        assert(forall|i: int| 0 <= i < s.drop_last().len() ==> s.drop_last()[i] == c);
        lemma_hue_of_repeated(s.drop_last(), c);
        assert(s.last() == c);
        if n <= 10 {
            assert(hue_scaled(s) == 90 * p * (n - 1) + 90 * p);
            assert(90 * p * (n - 1) + 90 * p == 90 * p * n) by (nonlinear_arith);
        } else if n == 11 {
            assert(hue_scaled(s) == 90 * p * 10 + p);
            assert(90 * p * 10 == 900 * p) by (nonlinear_arith);
            assert(p * (n - 10) == p) by (nonlinear_arith)
                requires
                    n == 11,
            ;
        } else {
            assert(hue_scaled(s) == 900 * p + p * (n - 1 - 10) + p);
            assert(p * (n - 1 - 10) + p == p * (n - 10)) by (nonlinear_arith);
        }
    }
}

/// Derive the hue of a string, in ninetieths of a degree.
///
/// The length bound keeps the accumulated hue inside a `u64`; it admits
/// every string below about five petabytes.
pub fn hue_ninetieths(source: &str) -> (h: u64)
    requires
        max_term_scaled() * source@.len() <= u64::MAX,
    ensures
        h == hue_scaled(source@),
{
    let p = positioner();
    let n = source.unicode_len();
    let mut h: u64 = 0;
    let mut i: usize = 0;
    while i < n
        invariant
            p.wf(),
            n == source@.len(),
            0 <= i <= n,
            max_term_scaled() * n <= u64::MAX,
            h == hue_scaled(source@.take(i as int)),
        decreases n - i,
    {
        let c = source.get_char(i);
        let (pos, _total) = p.position(c as usize);
        let t: u64 = if i < 10 {
            (90 * pos) as u64
        } else {
            pos as u64
        };
        proof {
            lemma_hue_scaled_bounds(source@.take(i as int));
            lemma_hue_scaled_push(source@.take(i as int), source@[i as int]);
            assert(source@.take(i as int).push(source@[i as int]) =~= source@.take(i + 1));
        }
        h = h + t;
        i += 1;
    }
    proof {
        assert(source@.take(n as int) =~= source@);
    }
    h
}

/// The hue of a whole path, in ninetieths of a degree: the hue of the
/// concatenation, with no separator, of its normalized components.
pub open spec fn path_hue_scaled(s: Seq<char>, black_list: Seq<Seq<char>>) -> int {
    hue_scaled(normalize(s, black_list).flatten())
}

/// Law: a path whose segments are all filtered out — every one empty or
/// blacklisted — yields no components, and its hue is 0: the explicit
/// policy for all-filtered input.
pub proof fn lemma_empty_components_hue(s: Seq<char>, black_list: Seq<Seq<char>>)
    requires
        forall|i: int|
            0 <= i < split_slash(lower_chars(s)).len() ==> !keep_component(
                #[trigger] split_slash(lower_chars(s))[i],
                black_list,
            ),
    ensures
        normalize(s, black_list) == Seq::<Seq<char>>::empty(),
        path_hue_scaled(s, black_list) == 0,
{
    lemma_filter_components_none(split_slash(lower_chars(s)), black_list);
}

/// Concatenate components into one string with no separator.
pub fn concat_components(components: &Vec<String>) -> (r: String)
    ensures
        r@ == components.deep_view().flatten(),
{
    let mut r = String::new();
    let mut i: usize = 0;
    proof {
        assert(components.deep_view().take(0).flatten() =~= Seq::<char>::empty());
    }
    while i < components.len()
        invariant
            0 <= i <= components.len(),
            r@ == components.deep_view().take(i as int).flatten(),
        decreases components.len() - i,
    {
        proof {
            components.deep_view().take(i as int).lemma_flatten_push(
                components.deep_view()[i as int],
            );
            assert(components.deep_view().take(i as int).push(components.deep_view()[i as int])
                =~= components.deep_view().take(i + 1));
        }
        r.append(components[i].as_str());
        i += 1;
    }
    proof {
        assert(components.deep_view().take(components.len() as int) =~= components.deep_view());
    }
    r
}

/// Derive the hue of a path, in ninetieths of a degree: normalize it,
/// concatenate the components, and scan the result. An all-filtered path
/// has no components and maps to hue 0.
///
/// The length bound keeps the accumulated hue inside a `u64`.
pub fn path_hue_ninetieths(path: &str, black_list: &Vec<String>) -> (h: u64)
    requires
        max_term_scaled() * path@.len() <= u64::MAX,
    ensures
        h == path_hue_scaled(path@, black_list.deep_view()),
{
    let comps = clean(path, black_list);
    let joined = concat_components(&comps);
    proof {
        lemma_normalize_flatten_len(path@, black_list.deep_view());
    }
    hue_ninetieths(joined.as_str())
}

/// Wrap a hue in ninetieths of a degree into `[0, 360)` degrees, that is
/// into `[0, 32400)` ninetieths: the explicit policy for hues that the
/// accumulation pushed past a full turn, and for negative hues handed in
/// at the rendering boundary.
pub fn wrap_ninetieths(h: i64) -> (r: u64)
    ensures
        0 <= r < full_turn_scaled(),
        r == (h as int) % full_turn_scaled(),
{
    let m: i64 = h % 32400;
    if m < 0 {
        (m + 32400) as u64
    } else {
        m as u64
    }
}

} // verus!
