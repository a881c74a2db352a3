//! The path normalizer.
//!
//! A raw path is lowercased (ASCII case folding), split on `/`, and every
//! segment that is empty or an exact member of the configured blacklist is
//! dropped; the order of the remaining components is preserved. A path
//! whose segments are all filtered out yields the empty component
//! sequence, and the hue deriver maps that to hue 0: the explicit policy
//! for all-filtered input.

use vstd::prelude::*;

verus! {

/// The ASCII lowercase equivalent of a character; characters outside
/// `A`-`Z` pass through unchanged.
pub open spec fn lower_char(c: char) -> char {
    if 'A' <= c && c <= 'Z' {
        ((c as u8) + 32) as char
    } else {
        c
    }
}

/// A string with every character folded to its ASCII lowercase equivalent.
pub open spec fn lower_chars(s: Seq<char>) -> Seq<char> {
    s.map_values(|c: char| lower_char(c))
}

/// The segments of a string split on `/`, separators excluded: one more
/// segment than there are slashes, in order, each possibly empty.
pub open spec fn split_slash(s: Seq<char>) -> Seq<Seq<char>>
    decreases s.len(),
{
    if s.len() == 0 {
        seq![Seq::<char>::empty()]
    } else {
        let rest = split_slash(s.drop_last());
        if s.last() == '/' {
            rest.push(Seq::<char>::empty())
        } else {
            rest.update(rest.len() - 1, rest.last().push(s.last()))
        }
    }
}

/// Splitting always yields at least one segment.
pub proof fn lemma_split_slash_nonempty(s: Seq<char>)
    ensures
        split_slash(s).len() >= 1,
    decreases s.len(),
{
    if s.len() > 0 {
        lemma_split_slash_nonempty(s.drop_last());
    }
}

/// A segment survives filtering when it is non-empty and not an exact
/// member of the blacklist.
pub open spec fn keep_component(comp: Seq<char>, black_list: Seq<Seq<char>>) -> bool {
    comp.len() > 0 && !black_list.contains(comp)
}

/// The segments that survive filtering against `black_list`, in order.
pub open spec fn filter_components(css: Seq<Seq<char>>, black_list: Seq<Seq<char>>) -> Seq<
    Seq<char>,
> {
    css.filter(|comp: Seq<char>| keep_component(comp, black_list))
}

/// The normalized components of a path: lowercased, split on `/`, with
/// empty and blacklisted segments dropped.
pub open spec fn normalize(s: Seq<char>, black_list: Seq<Seq<char>>) -> Seq<Seq<char>> {
    filter_components(split_slash(lower_chars(s)), black_list)
}

/// Filtering one more segment keeps it exactly when `keep_component` says
/// so.
pub proof fn lemma_filter_components_push(
    css: Seq<Seq<char>>,
    comp: Seq<char>,
    black_list: Seq<Seq<char>>,
)
    ensures
        keep_component(comp, black_list) ==> filter_components(css.push(comp), black_list)
            == filter_components(css, black_list).push(comp),
        !keep_component(comp, black_list) ==> filter_components(css.push(comp), black_list)
            == filter_components(css, black_list),
{
    reveal(Seq::filter);
    assert(css.push(comp).drop_last() =~= css);
    assert(css.push(comp).last() == comp);
}

/// Every component that filtering keeps satisfies `keep_component`.
pub proof fn lemma_filter_components_sound(css: Seq<Seq<char>>, black_list: Seq<Seq<char>>)
    ensures
        forall|i: int|
            0 <= i < filter_components(css, black_list).len() ==> keep_component(
                #[trigger] filter_components(css, black_list)[i],
                black_list,
            ),
{
    broadcast use Seq::lemma_filter_pred;

}

/// Filtering keeps a sequence of segments unchanged when every segment is
/// non-empty and none is blacklisted.
pub proof fn lemma_filter_components_all(css: Seq<Seq<char>>, black_list: Seq<Seq<char>>)
    requires
        forall|i: int| 0 <= i < css.len() ==> keep_component(#[trigger] css[i], black_list),
    ensures
        filter_components(css, black_list) == css,
    decreases css.len(),
{
    reveal(Seq::filter);
    if css.len() > 0 {
        assert forall|i: int| 0 <= i < css.drop_last().len() implies keep_component(
            #[trigger] css.drop_last()[i],
            black_list,
        ) by {
            assert(css.drop_last()[i] == css[i]);
        }
        lemma_filter_components_all(css.drop_last(), black_list);
        assert(keep_component(css.last(), black_list));
        assert(filter_components(css, black_list) =~~= css);
    }
}

/// Filtering drops every segment when each one is empty or blacklisted.
pub proof fn lemma_filter_components_none(css: Seq<Seq<char>>, black_list: Seq<Seq<char>>)
    requires
        forall|i: int| 0 <= i < css.len() ==> !keep_component(#[trigger] css[i], black_list),
    ensures
        filter_components(css, black_list) == Seq::<Seq<char>>::empty(),
    decreases css.len(),
{
    reveal(Seq::filter);
    if css.len() > 0 {
        assert forall|i: int| 0 <= i < css.drop_last().len() implies !keep_component(
            #[trigger] css.drop_last()[i],
            black_list,
        ) by {
            assert(css.drop_last()[i] == css[i]);
        }
        lemma_filter_components_none(css.drop_last(), black_list);
        assert(!keep_component(css.last(), black_list));
    }
}

/// Law: blacklist filtering is vacuous on already-clean input. When no
/// segment of the lowercased path is empty or blacklisted, normalizing
/// returns the segments unchanged, only case-folded.
pub proof fn lemma_normalize_clean_input(s: Seq<char>, black_list: Seq<Seq<char>>)
    requires
        forall|i: int|
            0 <= i < split_slash(lower_chars(s)).len() ==> keep_component(
                #[trigger] split_slash(lower_chars(s))[i],
                black_list,
            ),
    ensures
        normalize(s, black_list) == split_slash(lower_chars(s)),
{
    lemma_filter_components_all(split_slash(lower_chars(s)), black_list);
}

/// A segment that contains no separator.
pub open spec fn slash_free(comp: Seq<char>) -> bool {
    forall|j: int| 0 <= j < comp.len() ==> comp[j] != '/'
}

/// A string that ASCII case folding leaves unchanged, character by
/// character.
pub open spec fn all_lower(s: Seq<char>) -> bool {
    forall|j: int| 0 <= j < s.len() ==> lower_char(#[trigger] s[j]) == s[j]
}

/// Components joined back into one path with `/` separators.
pub open spec fn join_slash(css: Seq<Seq<char>>) -> Seq<char>
    decreases css.len(),
{
    if css.len() == 0 {
        Seq::empty()
    } else if css.len() == 1 {
        css[0]
    } else {
        join_slash(css.drop_last()) + seq!['/'] + css.last()
    }
}

/// Every segment that splitting yields is free of separators.
pub proof fn lemma_split_slash_free(s: Seq<char>)
    ensures
        forall|i: int|
            0 <= i < split_slash(s).len() ==> slash_free(#[trigger] split_slash(s)[i]),
    decreases s.len(),
{
    if s.len() > 0 {
        lemma_split_slash_free(s.drop_last());
        let rest = split_slash(s.drop_last());
        lemma_split_slash_nonempty(s.drop_last());
        if s.last() == '/' {
            assert forall|i: int| 0 <= i < split_slash(s).len() implies slash_free(
                #[trigger] split_slash(s)[i],
            ) by {
                if i < rest.len() {
                    assert(split_slash(s)[i] == rest[i]);
                }
            }
        } else {
            assert forall|i: int| 0 <= i < split_slash(s).len() implies slash_free(
                #[trigger] split_slash(s)[i],
            ) by {
                if i < rest.len() - 1 {
                    assert(split_slash(s)[i] == rest[i]);
                } else {
                    assert(split_slash(s)[i] == rest.last().push(s.last()));
                    assert(slash_free(rest[rest.len() - 1]));
                }
            }
        }
    }
}

/// Splitting an already-lowercase string yields already-lowercase
/// segments.
pub proof fn lemma_split_preserves_lower(s: Seq<char>)
    requires
        all_lower(s),
    ensures
        forall|i: int| 0 <= i < split_slash(s).len() ==> all_lower(#[trigger] split_slash(s)[i]),
    decreases s.len(),
{
    if s.len() > 0 {
        assert(all_lower(s.drop_last())) by {
            assert forall|j: int| 0 <= j < s.drop_last().len() implies lower_char(
                #[trigger] s.drop_last()[j],
            ) == s.drop_last()[j] by {
                assert(s.drop_last()[j] == s[j]);
            }
        }
        lemma_split_preserves_lower(s.drop_last());
        let rest = split_slash(s.drop_last());
        lemma_split_slash_nonempty(s.drop_last());
        if s.last() == '/' {
            assert forall|i: int| 0 <= i < split_slash(s).len() implies all_lower(
                #[trigger] split_slash(s)[i],
            ) by {
                if i < rest.len() {
                    assert(split_slash(s)[i] == rest[i]);
                }
            }
        } else {
            assert(lower_char(s.last()) == s.last());
            assert forall|i: int| 0 <= i < split_slash(s).len() implies all_lower(
                #[trigger] split_slash(s)[i],
            ) by {
                if i < rest.len() - 1 {
                    assert(split_slash(s)[i] == rest[i]);
                } else {
                    assert(split_slash(s)[i] == rest.last().push(s.last()));
                    assert(all_lower(rest[rest.len() - 1]));
                    assert forall|j: int| 0 <= j < rest.last().push(s.last()).len() implies
                        lower_char(#[trigger] rest.last().push(s.last())[j]) == rest.last().push(
                        s.last(),
                    )[j] by {
                        if j < rest.last().len() {
                            assert(rest.last().push(s.last())[j] == rest.last()[j]);
                        }
                    }
                }
            }
        }
    }
}

/// Case folding leaves a string that is already lowercase character by
/// character.
pub proof fn lemma_lower_chars_all_lower(s: Seq<char>)
    ensures
        all_lower(lower_chars(s)),
{
    assert forall|j: int| 0 <= j < lower_chars(s).len() implies lower_char(
        #[trigger] lower_chars(s)[j],
    ) == lower_chars(s)[j] by {
        assert(lower_chars(s)[j] == lower_char(s[j]));
    }
}

/// Case folding is vacuous on an already-lowercase string.
pub proof fn lemma_lower_chars_fixed(s: Seq<char>)
    requires
        all_lower(s),
    ensures
        lower_chars(s) == s,
{
    assert(lower_chars(s) =~= s);
}

/// Filtering passes any property that holds of every segment on to every
/// kept segment.
pub proof fn lemma_filter_components_inherit(
    css: Seq<Seq<char>>,
    black_list: Seq<Seq<char>>,
    p: spec_fn(Seq<char>) -> bool,
)
    requires
        forall|i: int| 0 <= i < css.len() ==> p(#[trigger] css[i]),
    ensures
        forall|i: int|
            0 <= i < filter_components(css, black_list).len() ==> p(
                #[trigger] filter_components(css, black_list)[i],
            ),
    decreases css.len(),
{
    reveal(Seq::filter);
    if css.len() > 0 {
        assert forall|i: int| 0 <= i < css.drop_last().len() implies p(
            #[trigger] css.drop_last()[i],
        ) by {
            assert(css.drop_last()[i] == css[i]);
        }
        lemma_filter_components_inherit(css.drop_last(), black_list, p);
        let sub = filter_components(css.drop_last(), black_list);
        if keep_component(css.last(), black_list) {
            assert(p(css[css.len() - 1]));
            assert forall|i: int| 0 <= i < filter_components(css, black_list).len() implies p(
                #[trigger] filter_components(css, black_list)[i],
            ) by {
                if i < sub.len() {
                    assert(filter_components(css, black_list)[i] == sub[i]);
                } else {
                    assert(filter_components(css, black_list)[i] == css.last());
                }
            }
        }
    }
}

/// Joining segments that case folding leaves unchanged gives a path that
/// case folding leaves unchanged.
pub proof fn lemma_join_all_lower(css: Seq<Seq<char>>)
    requires
        forall|i: int| 0 <= i < css.len() ==> all_lower(#[trigger] css[i]),
    ensures
        all_lower(join_slash(css)),
    decreases css.len(),
{
    if css.len() <= 1 {
    } else {
        assert forall|i: int| 0 <= i < css.drop_last().len() implies all_lower(
            #[trigger] css.drop_last()[i],
        ) by {
            assert(css.drop_last()[i] == css[i]);
        }
        lemma_join_all_lower(css.drop_last());
        let a = join_slash(css.drop_last());
        let whole = a + seq!['/'] + css.last();
        assert(all_lower(css[css.len() - 1]));
        assert forall|j: int| 0 <= j < whole.len() implies lower_char(#[trigger] whole[j])
            == whole[j] by {
            if j < a.len() {
                assert(whole[j] == a[j]);
            } else if j == a.len() {
                assert(whole[j] == '/');
            } else {
                assert(whole[j] == css.last()[j - a.len() - 1]);
            }
        }
    }
}

/// Splitting a separator-free string yields that one segment.
pub proof fn lemma_split_of_slash_free(s: Seq<char>)
    requires
        slash_free(s),
    ensures
        split_slash(s) == seq![s],
    decreases s.len(),
{
    if s.len() == 0 {
        assert(split_slash(s) =~~= seq![s]);
    } else {
        assert(slash_free(s.drop_last()));
        lemma_split_of_slash_free(s.drop_last());
        assert(s.last() != '/');
        assert(split_slash(s) =~~= seq![s]) by {
            assert(split_slash(s.drop_last()).last() == s.drop_last());
            assert(s.drop_last().push(s.last()) =~= s);
        }
    }
}

/// Appending a separator-free tail extends the final segment and nothing
/// else.
pub proof fn lemma_split_append_slash_free(a: Seq<char>, b: Seq<char>)
    requires
        slash_free(b),
    ensures
        split_slash(a + b) == split_slash(a).update(
            split_slash(a).len() - 1,
            split_slash(a).last() + b,
        ),
    decreases b.len(),
{
    lemma_split_slash_nonempty(a);
    let rest = split_slash(a);
    if b.len() == 0 {
        assert(a + b =~= a);
        assert(rest.last() + b =~= rest.last());
        assert(rest.update(rest.len() - 1, rest.last() + b) =~~= rest);
    } else {
        assert(slash_free(b.drop_last()));
        lemma_split_append_slash_free(a, b.drop_last());
        let c = b.last();
        assert(c != '/');
        let prev = a + b.drop_last();
        assert(a + b =~= prev.push(c));
        assert(prev.push(c).drop_last() =~= prev);
        let mid = rest.update(rest.len() - 1, rest.last() + b.drop_last());
        assert(split_slash(prev.push(c)) == mid.update(mid.len() - 1, mid.last().push(c)));
        assert(mid.last() == rest.last() + b.drop_last());
        assert((rest.last() + b.drop_last()).push(c) =~= rest.last() + b);
        assert(mid.update(mid.len() - 1, mid.last().push(c)) =~~= rest.update(
            rest.len() - 1,
            rest.last() + b,
        ));
    }
}

/// Splitting undoes joining, for at least one separator-free segment.
pub proof fn lemma_split_join(css: Seq<Seq<char>>)
    requires
        css.len() >= 1,
        forall|i: int| 0 <= i < css.len() ==> slash_free(#[trigger] css[i]),
    ensures
        split_slash(join_slash(css)) == css,
    decreases css.len(),
{
    if css.len() == 1 {
        lemma_split_of_slash_free(css[0]);
        assert(split_slash(join_slash(css)) =~~= css);
    } else {
        let dl = css.drop_last();
        assert forall|i: int| 0 <= i < dl.len() implies slash_free(#[trigger] dl[i]) by {
            assert(dl[i] == css[i]);
        }
        lemma_split_join(dl);
        let a = join_slash(dl);
        assert(join_slash(css) == a + seq!['/'] + css.last());
        assert(a + seq!['/'] =~= a.push('/'));
        assert(a.push('/').drop_last() =~= a);
        assert(split_slash(a.push('/')) == split_slash(a).push(Seq::empty()));
        lemma_split_append_slash_free(a + seq!['/'], css.last());
        assert(a + seq!['/'] + css.last() =~= (a + seq!['/']) + css.last());
        let withsep = split_slash(a + seq!['/']);
        assert(withsep == dl.push(Seq::<char>::empty()));
        assert(withsep.last() + css.last() =~= css.last());
        assert(withsep.update(withsep.len() - 1, withsep.last() + css.last()) =~~= css);
    }
}

/// Law: normalization is idempotent. Joining the normalized components
/// back into a path with `/` separators and normalizing again gives the
/// same components.
pub proof fn lemma_normalize_idempotent(s: Seq<char>, black_list: Seq<Seq<char>>)
    ensures
        normalize(join_slash(normalize(s, black_list)), black_list) == normalize(s, black_list),
{
    let segs = split_slash(lower_chars(s));
    let norm = normalize(s, black_list);
    if norm.len() == 0 {
        assert(join_slash(norm) =~= Seq::<char>::empty());
        assert(lower_chars(Seq::<char>::empty()) =~= Seq::<char>::empty());
        let again = split_slash(Seq::<char>::empty());
        assert(again =~~= seq![Seq::<char>::empty()]);
        assert forall|i: int| 0 <= i < again.len() implies !keep_component(
            #[trigger] again[i],
            black_list,
        ) by {
            assert(again[i].len() == 0);
        }
        lemma_filter_components_none(again, black_list);
    } else {
        lemma_split_slash_free(lower_chars(s));
        lemma_lower_chars_all_lower(s);
        lemma_split_preserves_lower(lower_chars(s));
        lemma_filter_components_inherit(segs, black_list, |comp: Seq<char>| slash_free(comp));
        lemma_filter_components_inherit(segs, black_list, |comp: Seq<char>| all_lower(comp));
        assert(forall|i: int| 0 <= i < norm.len() ==> slash_free(#[trigger] norm[i]));
        assert(forall|i: int| 0 <= i < norm.len() ==> all_lower(#[trigger] norm[i]));
        lemma_join_all_lower(norm);
        lemma_lower_chars_fixed(join_slash(norm));
        lemma_split_join(norm);
        lemma_filter_components_sound(segs, black_list);
        lemma_filter_components_all(norm, black_list);
    }
}

/// Filtering never lengthens the concatenation of the segments.
pub proof fn lemma_filter_flatten_len(css: Seq<Seq<char>>, black_list: Seq<Seq<char>>)
    ensures
        filter_components(css, black_list).flatten().len() <= css.flatten().len(),
    decreases css.len(),
{
    reveal(Seq::filter);
    if css.len() > 0 {
        let dl = css.drop_last();
        lemma_filter_flatten_len(dl, black_list);
        css.lemma_flatten_and_flatten_alt_are_equivalent();
        dl.lemma_flatten_and_flatten_alt_are_equivalent();
        assert(css.flatten_alt() == dl.flatten_alt() + css.last());
        if keep_component(css.last(), black_list) {
            filter_components(dl, black_list).lemma_flatten_push(css.last());
        }
    }
}

/// The segments of a string hold at most as many characters as the string.
pub proof fn lemma_split_flatten_len(s: Seq<char>)
    ensures
        split_slash(s).flatten().len() <= s.len(),
    decreases s.len(),
{
    if s.len() == 0 {
        split_slash(s).lemma_flatten_singleton();
    } else {
        let dl = s.drop_last();
        lemma_split_flatten_len(dl);
        let rest = split_slash(dl);
        lemma_split_slash_nonempty(dl);
        if s.last() == '/' {
            rest.lemma_flatten_push(Seq::empty());
        } else {
            let updated = rest.update(rest.len() - 1, rest.last().push(s.last()));
            updated.lemma_flatten_and_flatten_alt_are_equivalent();
            rest.lemma_flatten_and_flatten_alt_are_equivalent();
            assert(updated.drop_last() =~= rest.drop_last());
            assert(updated.last() == rest.last().push(s.last()));
            assert(updated.flatten_alt() == updated.drop_last().flatten_alt() + updated.last());
            assert(rest.flatten_alt() == rest.drop_last().flatten_alt() + rest.last());
        }
    }
}

/// The concatenated normalized components are never longer than the path
/// they came from.
pub proof fn lemma_normalize_flatten_len(s: Seq<char>, black_list: Seq<Seq<char>>)
    ensures
        normalize(s, black_list).flatten().len() <= s.len(),
{
    lemma_filter_flatten_len(split_slash(lower_chars(s)), black_list);
    lemma_split_flatten_len(lower_chars(s));
}

/// Relies on str::to_ascii_lowercase: each character is replaced by its
/// ASCII lowercase equivalent, and all other characters are unchanged.
#[verifier::external_body]
fn ascii_lower(s: &str) -> (r: String)
    ensures
        r@ == lower_chars(s@),
{
    s.to_ascii_lowercase()
}

/// Character-for-character string equality.
pub(crate) fn str_eq(a: &str, b: &str) -> (r: bool)
    ensures
        r == (a@ == b@),
{
    let na = a.unicode_len();
    let nb = b.unicode_len();
    if na != nb {
        return false;
    }
    let mut i: usize = 0;
    while i < na
        invariant
            na == a@.len(),
            na == b@.len(),
            0 <= i <= na,
            forall|j: int| 0 <= j < i ==> a@[j] == b@[j],
        decreases na - i,
    {
        if a.get_char(i) != b.get_char(i) {
            return false;
        }
        i += 1;
    }
    proof {
        assert(a@ =~= b@);
    }
    true
}

/// Whether `s` is an exact member of `list`.
fn in_list(list: &Vec<String>, s: &str) -> (b: bool)
    ensures
        b == list.deep_view().contains(s@),
{
    let mut i: usize = 0;
    while i < list.len()
        invariant
            0 <= i <= list.len(),
            forall|j: int| 0 <= j < i ==> list.deep_view()[j] != s@,
        decreases list.len() - i,
    {
        if str_eq(list[i].as_str(), s) {
            proof {
                assert(list.deep_view()[i as int] == s@);
            }
            return true;
        }
        i += 1;
    }
    false
}

/// Normalize a path: lowercase it, split it on `/`, and drop every
/// segment that is empty or blacklisted, keeping the rest in order.
pub fn clean(source: &str, black_list: &Vec<String>) -> (r: Vec<String>)
    ensures
        r.deep_view() == normalize(source@, black_list.deep_view()),
{
    let low = ascii_lower(source);
    let low_s: &str = low.as_str();
    let n = low_s.unicode_len();
    let mut comps: Vec<String> = Vec::new();
    let mut start: usize = 0;
    let mut i: usize = 0;
    let ghost mut closed: Seq<Seq<char>> = Seq::empty();
    proof {
        assert(split_slash(low@.take(0)) =~~= closed.push(low@.subrange(0, 0)));
        assert(comps.deep_view() =~= filter_components(closed, black_list.deep_view()));
    }
    while i < n
        invariant
            n == low@.len(),
            low_s@ == low@,
            0 <= start <= i <= n,
            split_slash(low@.take(i as int)) == closed.push(
                low@.subrange(start as int, i as int),
            ),
            comps.deep_view() == filter_components(closed, black_list.deep_view()),
        decreases n - i,
    {
        let c = low_s.get_char(i);
        let ghost partial = low@.subrange(start as int, i as int);
        proof {
            assert(low@.take(i + 1).drop_last() =~= low@.take(i as int));
            assert(low@.take(i + 1).last() == low@[i as int]);
        }
        if c == '/' {
            if start < i {
                let seg = low_s.substring_char(start, i).to_owned();
                if !in_list(black_list, seg.as_str()) {
                    let ghost before = comps.deep_view();
                    comps.push(seg);
                    proof {
                        assert(comps.deep_view() =~= before.push(partial));
                    }
                }
            }
            proof {
                lemma_filter_components_push(closed, partial, black_list.deep_view());
                closed = closed.push(partial);
                assert(split_slash(low@.take(i + 1)) =~~= closed.push(
                    low@.subrange(i + 1, i + 1),
                ));
            }
            start = i + 1;
        } else {
            proof {
                let rest = closed.push(partial);
                assert(rest.last() == partial);
                assert(rest.update(rest.len() - 1, partial.push(low@[i as int])) =~= closed.push(
                    partial.push(low@[i as int]),
                ));
                assert(partial.push(low@[i as int]) =~= low@.subrange(start as int, i + 1));
            }
        }
        i += 1;
    }
    proof {
        assert(low@.take(n as int) =~= low@);
    }
    let ghost partial = low@.subrange(start as int, n as int);
    if start < n {
        let seg = low_s.substring_char(start, n).to_owned();
        if !in_list(black_list, seg.as_str()) {
            let ghost before = comps.deep_view();
            comps.push(seg);
            proof {
                assert(comps.deep_view() =~= before.push(partial));
            }
        }
    }
    proof {
        lemma_filter_components_push(closed, partial, black_list.deep_view());
    }
    comps
}

} // verus!
