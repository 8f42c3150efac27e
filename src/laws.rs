use vstd::prelude::*;

use crate::catalog::PresetView;
use crate::determiner::{
    agreement, agreements, consistent, insert_pos, lemma_insert_pos_bounds, lemma_ranked_permutation, matching_names, ranked,
    ColorMode, Determiner,
};
use crate::settings::{to_map, Entry};

verus! {

/// The outcome of identification, as characters.
pub open spec fn outcome_view(r: Result<String, String>) -> Result<Seq<char>, Seq<char>> {
    match r {
        Ok(n) => Ok(n@),
        Err(e) => Err(e@),
    }
}

/// `name` is the name of a preset of `catalog` that the matcher accepts for `observed`.
pub open spec fn accepted_name(
    catalog: Seq<PresetView>,
    observed: Map<Seq<char>, Seq<char>>,
    name: Seq<char>,
) -> bool {
    exists|i: int|
        0 <= i < catalog.len() && catalog[i].0 == name && consistent(observed, to_map(catalog[i].1))
}

proof fn lemma_matching_names_sound(catalog: Seq<PresetView>, observed: Map<Seq<char>, Seq<char>>)
    ensures
        forall|k: int|
            0 <= k < matching_names(catalog, observed).len() ==> #[trigger] accepted_name(
                catalog,
                observed,
                matching_names(catalog, observed)[k],
            ),
        forall|i: int|
            0 <= i < catalog.len() && consistent(observed, to_map(catalog[i].1)) ==> #[trigger] matching_names(
                catalog,
                observed,
            ).contains(catalog[i].0),
    decreases catalog.len(),
{
    if catalog.len() > 0 {
        let rest = catalog.drop_last();
        lemma_matching_names_sound(rest, observed);
        let names = matching_names(catalog, observed);
        let earlier = matching_names(rest, observed);
        assert forall|k: int| 0 <= k < names.len() implies #[trigger] accepted_name(
            catalog,
            observed,
            names[k],
        ) by {
            if k < earlier.len() {
                assert(names[k] == earlier[k]);
                assert(accepted_name(rest, observed, earlier[k]));
                let i = choose|i: int|
                    0 <= i < rest.len() && rest[i].0 == earlier[k] && consistent(
                        observed,
                        to_map(rest[i].1),
                    );
                assert(catalog[i] == rest[i]);
            } else {
                assert(catalog[catalog.len() - 1].0 == names[k]);
            }
        }
        assert forall|i: int|
            0 <= i < catalog.len() && consistent(
                observed,
                to_map(catalog[i].1),
            ) implies #[trigger] names.contains(catalog[i].0) by {
            if i < catalog.len() - 1 {
                assert(rest[i] == catalog[i]);
                assert(earlier.contains(rest[i].0));
                let k = choose|k: int| 0 <= k < earlier.len() && earlier[k] == rest[i].0;
                assert(names[k] == earlier[k]);
            } else {
                assert(names[names.len() - 1] == catalog[i].0);
            }
        }
    }
}

/// Identification reports exactly one of three outcomes: a unique match, no
/// match, or several matches. A name reported as the unique match, and each
/// name reported among several, is the name of a preset that the matcher
/// accepts; every preset that the matcher accepts is counted.
pub proof fn determine_preset_is_consistent(d: Determiner, observed: Seq<Entry>, r: Result<String, String>)
    requires
        d.reports(observed, r),
    ensures
        ({
            let names = d.matches_of(observed);
            let unique = r is Ok && names.len() == 1;
            let none = r is Err && names.len() == 0;
            let several = r is Err && names.len() >= 2;
            (unique && !none && !several) || (!unique && none && !several) || (!unique && !none
                && several)
        }),
        r matches Ok(n) ==> accepted_name(d.catalog(), to_map(observed), n@),
        forall|k: int|
            0 <= k < d.matches_of(observed).len() ==> #[trigger] accepted_name(
                d.catalog(),
                to_map(observed),
                d.matches_of(observed)[k],
            ),
        forall|i: int|
            0 <= i < d.catalog().len() && consistent(to_map(observed), to_map(d.catalog()[i].1))
                ==> #[trigger] d.matches_of(observed).contains(d.catalog()[i].0),
{
    lemma_matching_names_sound(d.catalog(), to_map(observed));
}

/// Adding a name that was not observed can only narrow the presets that match:
/// a preset consistent with the larger observation is consistent with the
/// smaller one, and no more presets match it.
pub proof fn matching_is_monotonic(
    catalog: Seq<PresetView>,
    observed: Map<Seq<char>, Seq<char>>,
    key: Seq<char>,
    value: Seq<char>,
)
    requires
        !observed.contains_key(key),
    ensures
        forall|preset: Map<Seq<char>, Seq<char>>|
            #[trigger] consistent(observed.insert(key, value), preset) ==> consistent(
                observed,
                preset,
            ),
        matching_names(catalog, observed.insert(key, value)).len() <= matching_names(
            catalog,
            observed,
        ).len(),
        forall|i: int|
            0 <= i < matching_names(catalog, observed.insert(key, value)).len()
                ==> #[trigger] matching_names(catalog, observed).contains(
                matching_names(catalog, observed.insert(key, value))[i],
            ),
    decreases catalog.len(),
{
    let wider = observed.insert(key, value);
    assert forall|preset: Map<Seq<char>, Seq<char>>| #[trigger]
        consistent(wider, preset) implies consistent(observed, preset) by {
        assert forall|k: Seq<char>|
            observed.contains_key(k) && preset.contains_key(k) implies #[trigger] preset[k]
            == observed[k] by {
            assert(wider[k] == observed[k]);
            assert(preset[k] == wider[k]);
        }
    }
    if catalog.len() > 0 {
        let rest = catalog.drop_last();
        matching_is_monotonic(rest, observed, key, value);
        let small = matching_names(catalog, wider);
        let big = matching_names(catalog, observed);
        let small0 = matching_names(rest, wider);
        let big0 = matching_names(rest, observed);
        assert forall|i: int| 0 <= i < small.len() implies #[trigger] big.contains(small[i]) by {
            if i < small0.len() {
                assert(small[i] == small0[i]);
                assert(big0.contains(small0[i]));
                let k = choose|k: int| 0 <= k < big0.len() && big0[k] == small0[i];
                assert(big[k] == big0[k]);
            } else {
                assert(consistent(wider, to_map(catalog.last().1)));
                assert(big[big.len() - 1] == small[i]);
            }
        }
    }
}

/// Preset `a` ranks ahead of preset `b`: a higher count, or an equal count and
/// a later place in the catalog.
pub open spec fn ranks_ahead(counts: Seq<nat>, a: int, b: int) -> bool {
    counts[a] > counts[b] || (counts[a] == counts[b] && a > b)
}

proof fn lemma_insert_pos_splits(order: Seq<int>, counts: Seq<nat>, c: nat)
    requires
        forall|k: int, l: int|
            0 <= k < l < order.len() ==> ranks_ahead(counts, #[trigger] order[k], #[trigger] order[l]),
    ensures
        forall|q: int| 0 <= q < insert_pos(order, counts, c) ==> counts[#[trigger] order[q]] > c,
        forall|q: int|
            insert_pos(order, counts, c) <= q < order.len() ==> counts[#[trigger] order[q]] <= c,
    decreases order.len(),
{
    lemma_insert_pos_bounds(order, counts, c);
    if order.len() > 0 {
        let rest = order.drop_first();
        assert forall|k: int, l: int| 0 <= k < l < rest.len() implies ranks_ahead(
            counts,
            #[trigger] rest[k],
            #[trigger] rest[l],
        ) by {
            assert(rest[k] == order[k + 1] && rest[l] == order[l + 1]);
        }
        lemma_insert_pos_splits(rest, counts, c);
        if counts[order[0]] <= c {
            assert forall|q: int| 0 <= q < order.len() implies counts[#[trigger] order[q]] <= c by {
                if q > 0 {
                    assert(ranks_ahead(counts, order[0], order[q]));
                }
            }
        } else {
            assert forall|q: int| 0 <= q < insert_pos(order, counts, c) implies counts[#[trigger] order[q]]
                > c by {
                if q > 0 {
                    assert(order[q] == rest[q - 1]);
                }
            }
            assert forall|q: int| insert_pos(order, counts, c) <= q < order.len() implies counts[#[trigger] order[q]]
                <= c by {
                assert(order[q] == rest[q - 1]);
            }
        }
    }
}

/// Along the ranking, each preset ranks ahead of every one after it.
proof fn lemma_ranked_sorted(counts: Seq<nat>)
    ensures
        forall|k: int, l: int|
            0 <= k < l < counts.len() ==> ranks_ahead(
                counts,
                #[trigger] ranked(counts)[k],
                #[trigger] ranked(counts)[l],
            ),
    decreases counts.len(),
{
    lemma_ranked_permutation(counts);
    if counts.len() > 0 {
        let n = counts.len();
        let front = counts.drop_last();
        let earlier = ranked(front);
        lemma_ranked_sorted(front);
        lemma_ranked_permutation(front);
        assert forall|k: int, l: int| 0 <= k < l < earlier.len() implies ranks_ahead(
            counts,
            #[trigger] earlier[k],
            #[trigger] earlier[l],
        ) by {
            assert(ranks_ahead(front, earlier[k], earlier[l]));
        }
        let c = counts[n - 1];
        let p = insert_pos(earlier, counts, c);
        lemma_insert_pos_splits(earlier, counts, c);
        lemma_insert_pos_bounds(earlier, counts, c);
        let r = ranked(counts);
        assert(r == earlier.insert(p, n - 1));
        assert forall|k: int, l: int| 0 <= k < l < n implies ranks_ahead(
            counts,
            #[trigger] r[k],
            #[trigger] r[l],
        ) by {
            if l < p {
                assert(r[k] == earlier[k] && r[l] == earlier[l]);
            } else if l == p {
                assert(r[k] == earlier[k]);
            } else if k < p {
                assert(r[k] == earlier[k] && r[l] == earlier[l - 1]);
            } else if k == p {
                assert(r[l] == earlier[l - 1]);
                assert(0 <= earlier[l - 1] < n - 1);
            } else {
                assert(r[k] == earlier[k - 1] && r[l] == earlier[l - 1]);
            }
        }
    }
}

proof fn lemma_agreement_bound(observed: Seq<Entry>, preset: Map<Seq<char>, Seq<char>>)
    ensures
        agreement(observed, preset) <= observed.len(),
    decreases observed.len(),
{
    if observed.len() > 0 {
        lemma_agreement_bound(observed.drop_last(), preset);
    }
}

/// The ranking of `closest_matches` has one entry per preset of the catalog,
/// each preset exactly once, ordered by agreement count from highest to
/// lowest with ties in reverse catalog order; and no agreement count exceeds
/// the number of observed names.
pub proof fn closest_matches_cover_catalog(catalog: Seq<PresetView>, observed: Seq<Entry>)
    ensures
        ranked(agreements(catalog, observed)).len() == catalog.len(),
        forall|k: int|
            0 <= k < catalog.len() ==> 0 <= #[trigger] ranked(agreements(catalog, observed))[k]
                < catalog.len(),
        forall|k: int, l: int|
            0 <= k < l < catalog.len() ==> #[trigger] ranked(agreements(catalog, observed))[k]
                != #[trigger] ranked(agreements(catalog, observed))[l],
        forall|i: int|
            0 <= i < catalog.len() ==> #[trigger] ranked(agreements(catalog, observed)).contains(i),
        forall|k: int, l: int|
            0 <= k < l < catalog.len() ==> ranks_ahead(
                agreements(catalog, observed),
                #[trigger] ranked(agreements(catalog, observed))[k],
                #[trigger] ranked(agreements(catalog, observed))[l],
            ),
        forall|i: int|
            0 <= i < catalog.len() ==> #[trigger] agreements(catalog, observed)[i]
                <= observed.len(),
{
    lemma_ranked_permutation(agreements(catalog, observed));
    lemma_ranked_sorted(agreements(catalog, observed));
    assert forall|i: int| 0 <= i < catalog.len() implies #[trigger] agreements(catalog, observed)[i]
        <= observed.len() by {
        lemma_agreement_bound(observed, to_map(catalog[i].1));
    }
}

/// Identifying the same observation twice gives the same outcome, wherever
/// the outcome does not print a table whose styling the terminal decides.
pub proof fn determine_preset_is_repeatable(
    d: Determiner,
    observed: Seq<Entry>,
    r1: Result<String, String>,
    r2: Result<String, String>,
)
    requires
        d.reports(observed, r1),
        d.reports(observed, r2),
        d.verbose() == 0 || d.color() == ColorMode::Never || d.matches_of(observed).len() > 0,
    ensures
        outcome_view(r1) == outcome_view(r2),
{
}

} // verus!
