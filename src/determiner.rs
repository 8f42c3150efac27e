use vstd::prelude::*;
use vstd::string::*;

use crate::catalog::{reference_catalog, reference_presets, PresetView};
use crate::parse::{normalize, normalized, parse_settings, parse_string};
use crate::report::{names_list, names_text, pairs_list, pairs_text};
use crate::settings::{has_key, lemma_entry_in_map, to_map, Entry, Settings};
use crate::style::{bold, green, styled, stdout_is_terminal};
use crate::table::{cells_view, layout, render_table, rows_view, CellView};

verus! {

/// When the comparison table may use color.
#[derive(Clone, Copy, Debug, PartialEq, Eq)]
pub enum ColorMode {
    /// Only when standard output is a terminal.
    Auto,
    /// Always.
    Always,
    /// Never.
    Never,
}

/// Options of a run.
pub struct Cli {
    /// Path to read the encoding flags from; standard input when absent.
    pub input: Option<String>,
    /// Whether the comparison table of close matches uses color.
    pub color: ColorMode,
    /// 0: a terse ranking when nothing matches; 1: a comparison table;
    /// 2 or more: the table shows every parameter.
    pub verbose: u8,
}

impl Default for Cli {
    fn default() -> (r: Cli)
        ensures
            r.input is None,
            r.color == ColorMode::Auto,
            r.verbose == 0,
    {
        Cli { input: None, color: ColorMode::Auto, verbose: 0 }
    }
}

/// `preset` contradicts none of the observed pairs: every observed name that
/// the preset also has carries the same value there.
pub open spec fn consistent(
    observed: Map<Seq<char>, Seq<char>>,
    preset: Map<Seq<char>, Seq<char>>,
) -> bool {
    forall|k: Seq<char>|
        observed.contains_key(k) && preset.contains_key(k) ==> #[trigger] preset[k] == observed[k]
}

/// The preset has no other value for the name of `e`.
pub open spec fn holds_pair(preset: Map<Seq<char>, Seq<char>>, e: Entry) -> bool {
    preset.contains_key(e.0) ==> preset[e.0] == e.1
}

/// The names of the presets consistent with `observed`, in catalog order.
pub open spec fn matching_names(catalog: Seq<PresetView>, observed: Map<Seq<char>, Seq<char>>) -> Seq<
    Seq<char>,
>
    decreases catalog.len(),
{
    if catalog.len() == 0 {
        seq![]
    } else {
        let earlier = matching_names(catalog.drop_last(), observed);
        if consistent(observed, to_map(catalog.last().1)) {
            earlier.push(catalog.last().0)
        } else {
            earlier
        }
    }
}

/// The number of observed pairs that the preset holds with the identical value.
pub open spec fn agreement(observed: Seq<Entry>, preset: Map<Seq<char>, Seq<char>>) -> nat
    decreases observed.len(),
{
    if observed.len() == 0 {
        0
    } else {
        let e = observed.last();
        agreement(observed.drop_last(), preset) + if preset.contains_key(e.0) && preset[e.0]
            == e.1 {
            1nat
        } else {
            0nat
        }
    }
}

/// The agreement count of each preset of the catalog.
pub open spec fn agreements(catalog: Seq<PresetView>, observed: Seq<Entry>) -> Seq<nat> {
    Seq::new(catalog.len(), |i: int| agreement(observed, to_map(catalog[i].1)))
}

/// Where preset `i`, of count `c`, goes among the presets `order` ranked so far:
/// ahead of the first one whose count is not higher.
pub open spec fn insert_pos(order: Seq<int>, counts: Seq<nat>, c: nat) -> int
    decreases order.len(),
{
    if order.len() == 0 {
        0
    } else if counts[order[0]] <= c {
        0
    } else {
        1 + insert_pos(order.drop_first(), counts, c)
    }
}

/// The catalog positions ranked by count, highest first; among equal counts a
/// later preset comes first. This is the order that a stable ascending sort by
/// count, followed by a reversal of the whole list, produces.
pub open spec fn ranked(counts: Seq<nat>) -> Seq<int>
    decreases counts.len(),
{
    if counts.len() == 0 {
        seq![]
    } else {
        let earlier = ranked(counts.drop_last());
        let i = counts.len() - 1;
        earlier.insert(insert_pos(earlier, counts, counts[i]), i)
    }
}

/// The counts of a vector, as naturals.
pub open spec fn nats(v: Seq<usize>) -> Seq<nat> {
    v.map_values(|c: usize| c as nat)
}

/// The positions of a vector, as integers.
pub open spec fn ints(v: Seq<usize>) -> Seq<int> {
    v.map_values(|c: usize| c as int)
}

pub proof fn lemma_insert_pos_bounds(order: Seq<int>, counts: Seq<nat>, c: nat)
    ensures
        0 <= insert_pos(order, counts, c) <= order.len(),
    decreases order.len(),
{
    if order.len() > 0 && counts[order[0]] > c {
        lemma_insert_pos_bounds(order.drop_first(), counts, c);
    }
}

/// The ranking holds every catalog position exactly once.
pub proof fn lemma_ranked_permutation(counts: Seq<nat>)
    ensures
        ranked(counts).len() == counts.len(),
        forall|k: int| 0 <= k < counts.len() ==> 0 <= #[trigger] ranked(counts)[k] < counts.len(),
        forall|k: int, l: int|
            0 <= k < l < counts.len() ==> #[trigger] ranked(counts)[k] != #[trigger] ranked(
                counts,
            )[l],
        forall|i: int| 0 <= i < counts.len() ==> #[trigger] ranked(counts).contains(i),
    decreases counts.len(),
{
    if counts.len() > 0 {
        let earlier = ranked(counts.drop_last());
        let n = counts.len();
        lemma_ranked_permutation(counts.drop_last());
        let p = insert_pos(earlier, counts, counts[n - 1]);
        lemma_insert_pos_bounds(earlier, counts, counts[n - 1]);
        let r = ranked(counts);
        assert(r == earlier.insert(p, n - 1));
        assert forall|k: int| 0 <= k < n implies 0 <= #[trigger] r[k] < n by {
            if k > p {
                assert(r[k] == earlier[k - 1]);
            }
        }
        assert forall|k: int, l: int| 0 <= k < l < n implies #[trigger] r[k] != #[trigger] r[l] by {
            if k > p {
                assert(r[k] == earlier[k - 1] && r[l] == earlier[l - 1]);
            } else if k < p && l > p {
                assert(r[l] == earlier[l - 1]);
            } else if k == p {
                assert(r[l] == earlier[l - 1]);
            }
        }
        assert forall|i: int| 0 <= i < n implies #[trigger] r.contains(i) by {
            if i == n - 1 {
                assert(r[p] == i);
            } else {
                assert(earlier.contains(i));
                let k0 = choose|k: int| 0 <= k < n - 1 && #[trigger] earlier[k] == i;
                if k0 < p {
                    assert(r[k0] == i);
                } else {
                    assert(r[k0 + 1] == i);
                }
            }
        }
    }
}

/// What the table shows for `p` in a settings map: its value, or `-` where it has none.
pub open spec fn value_or_dash(m: Map<Seq<char>, Seq<char>>, p: Seq<char>) -> Seq<char> {
    if m.contains_key(p) {
        m[p]
    } else {
        "-"@
    }
}

/// The names of the entries, in order.
pub open spec fn names_of(s: Seq<Entry>) -> Seq<Seq<char>> {
    s.map_values(|e: Entry| e.0)
}

/// The parameter names that every preset has: those of the first preset.
pub open spec fn schema(catalog: Seq<PresetView>) -> Seq<Seq<char>> {
    if catalog.len() > 0 {
        names_of(catalog[0].1)
    } else {
        seq![]
    }
}

/// The parameters that the comparison table shows, one per row: the observed
/// names that the schema knows, in observed order; with `full`, every observed
/// name followed by the schema's names that were not observed.
pub open spec fn shown_params(observed: Seq<Entry>, schema: Seq<Seq<char>>, full: bool) -> Seq<
    Seq<char>,
> {
    let keys = names_of(observed);
    if full {
        keys + schema.filter(|k: Seq<char>| !keys.contains(k))
    } else {
        keys.filter(|k: Seq<char>| schema.contains(k))
    }
}

/// The text in column `j` of the row of parameter `p`: the name, then the
/// observed value, then the value of each candidate preset.
pub open spec fn cell_text(
    catalog: Seq<PresetView>,
    observed: Map<Seq<char>, Seq<char>>,
    cands: Seq<int>,
    p: Seq<char>,
    j: int,
) -> Seq<char> {
    if j == 0 {
        p
    } else if j == 1 {
        value_or_dash(observed, p)
    } else {
        value_or_dash(to_map(catalog[cands[j - 2]].1), p)
    }
}

/// The styling of a cell when color is on: the observed value in bold, and a
/// candidate's value that equals it in green.
pub open spec fn cell_code(
    catalog: Seq<PresetView>,
    observed: Map<Seq<char>, Seq<char>>,
    cands: Seq<int>,
    p: Seq<char>,
    j: int,
) -> Option<Seq<char>> {
    if j == 1 {
        Some(seq!['1'])
    } else if j >= 2 && to_map(catalog[cands[j - 2]].1).contains_key(p) && observed.contains_key(p)
        && to_map(catalog[cands[j - 2]].1)[p] == observed[p] {
        Some(seq!['3', '2'])
    } else {
        None
    }
}

/// `shown` is a way to print a cell of text `text` and styling `code`.
pub open spec fn shown_as(text: Seq<char>, shown: Seq<char>, code: Option<Seq<char>>, color: bool) -> bool {
    if color && code is Some {
        !text.contains('\u{1b}') ==> (shown == text || shown == styled(code->0, text))
    } else {
        shown == text
    }
}

/// The header of the comparison table: an empty corner, `input`, then the
/// names of the candidates.
pub open spec fn header_texts(catalog: Seq<PresetView>, cands: Seq<int>) -> Seq<Seq<char>> {
    seq![seq![], "input"@] + cands.map_values(|i: int| catalog[i].0)
}

/// Cells printed as their text.
pub open spec fn plain(texts: Seq<Seq<char>>) -> Seq<CellView> {
    texts.map_values(|t: Seq<char>| (t, t))
}

/// `body` is the body of the comparison table of `observed` against the
/// candidates `cands`: one row per shown parameter, with the texts of
/// `cell_text`, printed as `shown_as` allows.
pub open spec fn is_comparison_body(
    catalog: Seq<PresetView>,
    observed: Seq<Entry>,
    cands: Seq<int>,
    full: bool,
    color: bool,
    body: Seq<Seq<CellView>>,
) -> bool {
    let params = shown_params(observed, schema(catalog), full);
    &&& body.len() == params.len()
    &&& forall|i: int| 0 <= i < body.len() ==> #[trigger] body[i].len() == cands.len() + 2
    &&& forall|i: int, j: int|
        0 <= i < body.len() && 0 <= j < cands.len() + 2 ==> {
            &&& #[trigger] body[i][j].0 == cell_text(catalog, to_map(observed), cands, params[i], j)
            &&& shown_as(
                body[i][j].0,
                body[i][j].1,
                cell_code(catalog, to_map(observed), cands, params[i], j),
                color,
            )
        }
}

/// Identifies presets against a fixed catalog.
pub struct Determiner {
    cli: Cli,
    presets: Vec<(String, Settings)>,
}

impl Determiner {
    /// The catalog, as characters.
    pub closed spec fn catalog(&self) -> Seq<PresetView> {
        self.presets@.map_values(|p: (String, Settings)| (p.0@, p.1@))
    }

    /// The verbosity of diagnostics.
    pub closed spec fn verbose(&self) -> u8 {
        self.cli.verbose
    }

    /// The color mode of diagnostics.
    pub closed spec fn color(&self) -> ColorMode {
        self.cli.color
    }

    /// Every preset's settings have unique names.
    pub closed spec fn wf(&self) -> bool {
        forall|i: int| 0 <= i < self.presets@.len() ==> #[trigger] self.presets@[i].1.wf()
    }

    /// A determiner over the reference catalog.
    pub fn new(cli: Cli) -> (r: Determiner)
        ensures
            r.wf(),
            r.catalog() == reference_catalog(),
            r.verbose() == cli.verbose,
            r.color() == cli.color,
    {
        let presets = reference_presets();
        let r = Determiner { cli, presets };
        proof {
            assert(r.catalog() =~= reference_catalog());
        }
        r
    }

    /// Whether `preset_settings` contradicts none of `input_settings`: every
    /// name of the input is either absent from the preset or has the same value there.
    pub fn preset_matches(&self, input_settings: &Settings, preset_settings: &Settings) -> (r:
        bool)
        requires
            input_settings.wf(),
            preset_settings.wf(),
        ensures
            r == consistent(input_settings.map(), preset_settings.map()),
    {
        let n = input_settings.len();
        let mut i: usize = 0;
        while i < n
            invariant
                n == input_settings@.len(),
                i <= n,
                input_settings.wf(),
                preset_settings.wf(),
                forall|j: int|
                    0 <= j < i ==> #[trigger] holds_pair(preset_settings.map(), input_settings@[j]),
            decreases n - i,
        {
            let (key, value) = input_settings.entry(i);
            match preset_settings.get(key.as_str()) {
                Some(v) => {
                    if *v != *value {
                        proof {
                            crate::settings::lemma_entry_in_map(input_settings@, i as int);
                        }
                        return false;
                    }
                },
                None => {},
            }
            i = i + 1;
        }
        proof {
            let obs = input_settings@;
            assert forall|k: Seq<char>|
                input_settings.map().contains_key(k) && preset_settings.map().contains_key(
                    k,
                ) implies #[trigger] preset_settings.map()[k] == input_settings.map()[k] by {
                let j = crate::settings::key_index(obs, k);
                crate::settings::lemma_entry_in_map(obs, j);
                assert(holds_pair(preset_settings.map(), obs[j]));
            }
        }
        true
    }

    /// The names of the presets that `settings` matches, in catalog order.
    pub fn matching_presets(&self, settings: &Settings) -> (r: Vec<String>)
        requires
            self.wf(),
            settings.wf(),
        ensures
            r@.map_values(|n: String| n@) == matching_names(self.catalog(), settings.map()),
    {
        let mut out: Vec<String> = Vec::new();
        let mut i: usize = 0;
        while i < self.presets.len()
            invariant
                self.wf(),
                settings.wf(),
                i <= self.presets@.len(),
                out@.map_values(|n: String| n@) == matching_names(
                    self.catalog().take(i as int),
                    settings.map(),
                ),
            decreases self.presets@.len() - i,
        {
            let ghost before = out@.map_values(|n: String| n@);
            proof {
                assert(self.catalog().take(i + 1).drop_last() =~= self.catalog().take(i as int));
                assert(self.presets@[i as int].1.wf());
            }
            let preset = &self.presets[i];
            if self.preset_matches(settings, &preset.1) {
                out.push(preset.0.clone());
                proof {
                    assert(out@.map_values(|n: String| n@) =~= before.push(preset.0@));
                }
            }
            i = i + 1;
        }
        proof {
            assert(self.catalog().take(i as int) =~= self.catalog());
        }
        out
    }
    /// The ranking of the catalog against `observed`: each preset's name with
    /// its agreement count, in the order of `ranked`.
    pub open spec fn ranking(&self, observed: Seq<Entry>) -> Seq<(Seq<char>, nat)> {
        let counts = agreements(self.catalog(), observed);
        ranked(counts).map_values(|i: int| (self.catalog()[i].0, counts[i]))
    }

    /// Every preset with the number of observed pairs it holds with the same
    /// value, highest count first; presets with equal counts come in reverse
    /// catalog order.
    pub fn closest_matches(&self, settings: &Settings) -> (r: Vec<(String, usize)>)
        requires
            self.wf(),
        ensures
            r@.map_values(|e: (String, usize)| (e.0@, e.1 as nat)) == self.ranking(settings@),
    {
        let ghost cat = self.catalog();
        let ghost all = agreements(cat, settings@);
        let (counts, order) = self.ranked_positions(settings);
        let mut out: Vec<(String, usize)> = Vec::new();
        let mut k: usize = 0;
        while k < order.len()
            invariant
                cat == self.catalog(),
                all == agreements(cat, settings@),
                nats(counts@) == all,
                ints(order@) == ranked(all),
                ranked(all).len() == all.len(),
                forall|j: int| 0 <= j < all.len() ==> 0 <= #[trigger] ranked(all)[j] < all.len(),
                k <= order@.len(),
                out@.map_values(|e: (String, usize)| (e.0@, e.1 as nat)) == self.ranking(
                    settings@,
                ).take(k as int),
            decreases order@.len() - k,
        {
            let ghost before = out@.map_values(|e: (String, usize)| (e.0@, e.1 as nat));
            let p = order[k];
            proof {
                assert(ints(order@)[k as int] == p as int);
                assert(0 <= ranked(all)[k as int] < all.len());
                assert(nats(counts@)[p as int] == counts@[p as int] as nat);
            }
            out.push((self.presets[p].0.clone(), counts[p]));
            proof {
                assert(cat[p as int].0 == self.presets@[p as int].0@);
                assert(self.ranking(settings@)[k as int] == (cat[p as int].0, all[p as int]));
                assert(self.ranking(settings@).take(k + 1) =~= self.ranking(settings@).take(
                    k as int,
                ).push(self.ranking(settings@)[k as int]));
                assert(out@.map_values(|e: (String, usize)| (e.0@, e.1 as nat)) =~= before.push(
                    (cat[p as int].0, all[p as int]),
                ));
            }
            k = k + 1;
        }
        proof {
            assert(self.ranking(settings@).take(k as int) =~= self.ranking(settings@));
        }
        out
    }

    /// The agreement count of each preset, and the catalog positions in ranked order.
    fn ranked_positions(&self, settings: &Settings) -> (r: (Vec<usize>, Vec<usize>))
        requires
            self.wf(),
        ensures
            nats(r.0@) == agreements(self.catalog(), settings@),
            ints(r.1@) == ranked(agreements(self.catalog(), settings@)),
            ranked(agreements(self.catalog(), settings@)).len() == self.catalog().len(),
            forall|j: int|
                0 <= j < self.catalog().len() ==> 0 <= #[trigger] ranked(
                    agreements(self.catalog(), settings@),
                )[j] < self.catalog().len(),
    {
        let ghost cat = self.catalog();
        let ghost all = agreements(cat, settings@);
        let mut counts: Vec<usize> = Vec::new();
        let mut i: usize = 0;
        while i < self.presets.len()
            invariant
                self.wf(),
                cat == self.catalog(),
                all == agreements(cat, settings@),
                i <= self.presets@.len(),
                nats(counts@) == all.take(i as int),
            decreases self.presets@.len() - i,
        {
            proof {
                assert(self.presets@[i as int].1.wf());
            }
            let c = agreement_count(settings, &self.presets[i].1);
            let ghost before = nats(counts@);
            counts.push(c);
            proof {
                assert(cat[i as int].1 == self.presets@[i as int].1@);
                assert(all[i as int] == c as nat);
                assert(nats(counts@) =~= before.push(c as nat));
                assert(all.take(i + 1) =~= all.take(i as int).push(all[i as int]));
            }
            i = i + 1;
        }
        proof {
            assert(all.take(i as int) =~= all);
        }
        let order = rank_positions(&counts);
        proof {
            lemma_ranked_permutation(all);
        }
        (counts, order)
    }
    /// The catalog positions of the (at most three) best-ranked presets.
    pub open spec fn candidates(&self, observed: Seq<Entry>) -> Seq<int> {
        let r = ranked(agreements(self.catalog(), observed));
        if r.len() <= 3 {
            r
        } else {
            r.take(3)
        }
    }

    /// `t` is a comparison table of `observed` against the candidates, with
    /// the rows that the verbosity asks for, styled or not as `color` says.
    pub open spec fn is_comparison_table(&self, observed: Seq<Entry>, color: bool, t: Seq<char>) -> bool {
        exists|body: Seq<Seq<CellView>>|
            is_comparison_body(
                self.catalog(),
                observed,
                self.candidates(observed),
                self.verbose() >= 2,
                color,
                body,
            ) && t == layout(plain(header_texts(self.catalog(), self.candidates(observed))), body)
    }

    /// The comparison table without styling.
    pub open spec fn plain_comparison_table(&self, observed: Seq<Entry>) -> Seq<char> {
        let cands = self.candidates(observed);
        let params = shown_params(observed, schema(self.catalog()), self.verbose() >= 2);
        layout(
            plain(header_texts(self.catalog(), cands)),
            Seq::new(
                params.len(),
                |i: int|
                    plain(
                        Seq::new(
                            cands.len() + 2,
                            |j: int| cell_text(self.catalog(), to_map(observed), cands, params[i], j),
                        ),
                    ),
            ),
        )
    }

    /// The parameters shown as rows of the comparison table.
    fn table_params(&self, settings: &Settings, full: bool) -> (r: Vec<String>)
        requires
            self.wf(),
            settings.wf(),
        ensures
            r@.map_values(|k: String| k@) == shown_params(settings@, schema(self.catalog()), full),
    {
        let ghost keys = names_of(settings@);
        let ghost sch = schema(self.catalog());
        let has_schema = self.presets.len() > 0;
        proof {
            if has_schema {
                assert(self.presets@[0].1.wf());
                assert(sch == names_of(self.presets@[0].1@));
            }
        }
        let mut out: Vec<String> = Vec::new();
        let mut i: usize = 0;
        while i < settings.len()
            invariant
                self.wf(),
                settings.wf(),
                keys == names_of(settings@),
                sch == schema(self.catalog()),
                has_schema == (self.presets@.len() > 0),
                has_schema ==> sch == names_of(self.presets@[0].1@) && self.presets@[0].1.wf(),
                i <= settings@.len(),
                full ==> out@.map_values(|k: String| k@) == keys.take(i as int),
                !full ==> out@.map_values(|k: String| k@) == keys.take(i as int).filter(
                    |k: Seq<char>| sch.contains(k),
                ),
            decreases settings@.len() - i,
        {
            let ghost before = out@.map_values(|k: String| k@);
            let (key, _) = settings.entry(i);
            proof {
                reveal(Seq::filter);
                assert(keys.take(i + 1).drop_last() =~= keys.take(i as int));
                assert(keys.take(i + 1).last() == key@);
            }
            let keep = if full {
                true
            } else if has_schema {
                proof {
                    if sch.contains(key@) {
                        let q = choose|q: int| 0 <= q < sch.len() && sch[q] == key@;
                        lemma_entry_in_map(self.presets@[0].1@, q);
                    }
                    if has_key(self.presets@[0].1@, key@) {
                        let q = choose|q: int|
                            0 <= q < self.presets@[0].1@.len() && self.presets@[0].1@[q].0 == key@;
                        assert(sch[q] == key@);
                    }
                }
                self.presets[0].1.get(key.as_str()).is_some()
            } else {
                false
            };
            if keep {
                out.push(key.clone());
                proof {
                    assert(out@.map_values(|k: String| k@) =~= before.push(key@));
                }
            }
            i = i + 1;
        }
        proof {
            assert(keys.take(i as int) =~= keys);
        }
        if full && has_schema {
            let ghost extra_of = |k: Seq<char>| !keys.contains(k);
            let base = out.len();
            let mut q: usize = 0;
            while q < self.presets[0].1.len()
                invariant
                    self.wf(),
                    settings.wf(),
                    keys == names_of(settings@),
                    sch == schema(self.catalog()),
                    self.presets@.len() > 0,
                    sch == names_of(self.presets@[0].1@),
                    q <= sch.len(),
                    out@.map_values(|k: String| k@) == keys + sch.take(q as int).filter(
                        |k: Seq<char>| !keys.contains(k),
                    ),
                decreases sch.len() - q,
            {
                let ghost before = out@.map_values(|k: String| k@);
                let (key, _) = self.presets[0].1.entry(q);
                proof {
                    reveal(Seq::filter);
                    assert(sch.take(q + 1).drop_last() =~= sch.take(q as int));
                    assert(sch.take(q + 1).last() == key@);
                    if keys.contains(key@) {
                        let w = choose|w: int| 0 <= w < keys.len() && keys[w] == key@;
                        lemma_entry_in_map(settings@, w);
                    }
                    if settings.map().contains_key(key@) {
                        let w = crate::settings::key_index(settings@, key@);
                        assert(keys[w] == key@);
                    }
                }
                if settings.get(key.as_str()).is_none() {
                    out.push(key.clone());
                    proof {
                        assert(out@.map_values(|k: String| k@) =~= before.push(key@));
                    }
                }
                q = q + 1;
            }
            proof {
                assert(sch.take(q as int) =~= sch);
            }
        } else if full {
            proof {
                reveal(Seq::filter);
                assert(keys + sch.filter(|k: Seq<char>| !keys.contains(k)) =~= keys);
            }
        }
        out
    }
    /// The cells of the row of parameter `p`.
    fn comparison_row(&self, settings: &Settings, p: &String, cands: &Vec<usize>, use_color: bool) -> (r: Vec<(String, String)>)
        requires
            self.wf(),
            settings.wf(),
            forall|k: int| 0 <= k < cands@.len() ==> #[trigger] cands@[k] < self.catalog().len(),
        ensures
            r@.len() == cands@.len() + 2,
            forall|j: int|
                0 <= j < cands@.len() + 2 ==> {
                    &&& #[trigger] cells_view(r@)[j].0 == cell_text(
                        self.catalog(),
                        settings.map(),
                        ints(cands@),
                        p@,
                        j,
                    )
                    &&& shown_as(
                        cells_view(r@)[j].0,
                        cells_view(r@)[j].1,
                        cell_code(self.catalog(), settings.map(), ints(cands@), p@, j),
                        use_color,
                    )
                },
    {
        let ghost cat = self.catalog();
        let ghost cv = ints(cands@);
        let dash = String::from_str("-");
        let observed = settings.get(p.as_str());
        let input_text = match observed {
            Some(v) => v.clone(),
            None => dash.clone(),
        };
        let input_shown = if use_color {
            bold(&input_text)
        } else {
            input_text.clone()
        };
        let mut row: Vec<(String, String)> = Vec::new();
        row.push((p.clone(), p.clone()));
        row.push((input_text, input_shown));
        let mut k: usize = 0;
        while k < cands.len()
            invariant
                self.wf(),
                settings.wf(),
                cat == self.catalog(),
                cv == ints(cands@),
                dash@ == "-"@,
                observed matches Some(v) ==> settings.map().contains_key(p@) && v@ == settings.map()[p@],
                observed is None ==> !settings.map().contains_key(p@),
                forall|q: int| 0 <= q < cands@.len() ==> #[trigger] cands@[q] < cat.len(),
                k <= cands@.len(),
                row@.len() == k + 2,
                forall|j: int|
                    0 <= j < k + 2 ==> {
                        &&& #[trigger] cells_view(row@)[j].0 == cell_text(
                            cat,
                            settings.map(),
                            cv,
                            p@,
                            j,
                        )
                        &&& shown_as(
                            cells_view(row@)[j].0,
                            cells_view(row@)[j].1,
                            cell_code(cat, settings.map(), cv, p@, j),
                            use_color,
                        )
                    },
            decreases cands@.len() - k,
        {
            let c = cands[k];
            proof {
                assert(cv[k as int] == c as int);
                assert(self.presets@[c as int].1.wf());
                assert(cat[c as int].1 == self.presets@[c as int].1@);
            }
            let cell = match self.presets[c].1.get(p.as_str()) {
                Some(v) => {
                    let same = match observed {
                        Some(o) => *o == *v,
                        None => false,
                    };
                    let text = v.clone();
                    let shown = if use_color && same {
                        green(&text)
                    } else {
                        text.clone()
                    };
                    (text, shown)
                },
                None => (dash.clone(), dash.clone()),
            };
            let ghost before = row@;
            row.push(cell);
            proof {
                assert forall|j: int| 0 <= j < k + 3 implies {
                    &&& #[trigger] cells_view(row@)[j].0 == cell_text(cat, settings.map(), cv, p@, j)
                    &&& shown_as(
                        cells_view(row@)[j].0,
                        cells_view(row@)[j].1,
                        cell_code(cat, settings.map(), cv, p@, j),
                        use_color,
                    )
                } by {
                    if j < k + 2 {
                        assert(row@[j] == before[j]);
                        assert(cells_view(before)[j] == cells_view(row@)[j]);
                    }
                }
            }
            k = k + 1;
        }
        row
    }

    /// The comparison table of `settings` against the best-ranked presets,
    /// styled when `use_color` holds.
    pub fn comparison_table(&self, settings: &Settings, use_color: bool) -> (r: String)
        requires
            self.wf(),
            settings.wf(),
        ensures
            self.is_comparison_table(settings@, use_color, r@),
            !use_color ==> r@ == self.plain_comparison_table(settings@),
    {
        let ghost cat = self.catalog();
        let ghost obs = settings@;
        let full = self.cli.verbose >= 2;
        let (_counts, order) = self.ranked_positions(settings);
        let ghost rk = ranked(agreements(cat, obs));
        let mut cands: Vec<usize> = Vec::new();
        let mut k: usize = 0;
        while k < order.len() && k < 3
            invariant
                cat == self.catalog(),
                rk == ranked(agreements(cat, obs)),
                ints(order@) == rk,
                rk.len() == cat.len(),
                forall|j: int| 0 <= j < cat.len() ==> 0 <= #[trigger] rk[j] < cat.len(),
                k <= order@.len(),
                k <= 3,
                ints(cands@) == rk.take(k as int),
            decreases order@.len() - k,
        {
            let ghost before = ints(cands@);
            cands.push(order[k]);
            proof {
                assert(ints(order@)[k as int] == order@[k as int] as int);
                assert(ints(cands@) =~= before.push(rk[k as int]));
                assert(rk.take(k + 1) =~= rk.take(k as int).push(rk[k as int]));
            }
            k = k + 1;
        }
        let ghost cs = ints(cands@);
        proof {
            if rk.len() <= 3 {
                assert(rk.take(k as int) =~= rk);
            }
            assert(cs == self.candidates(obs));
            assert forall|q: int| 0 <= q < cands@.len() implies #[trigger] cands@[q] < cat.len() by {
                assert(cs[q] == cands@[q] as int);
                assert(cs[q] == rk[q]);
            }
        }
        let mut header: Vec<(String, String)> = Vec::new();
        header.push((String::new(), String::new()));
        header.push((String::from_str("input"), String::from_str("input")));
        let mut q: usize = 0;
        while q < cands.len()
            invariant
                cat == self.catalog(),
                cs == ints(cands@),
                forall|j: int| 0 <= j < cands@.len() ==> #[trigger] cands@[j] < cat.len(),
                q <= cands@.len(),
                cells_view(header@) == plain(header_texts(cat, cs.take(q as int))),
            decreases cands@.len() - q,
        {
            let ghost before = cells_view(header@);
            let c = cands[q];
            let name = self.presets[c].0.clone();
            header.push((name.clone(), name));
            proof {
                assert(cs[q as int] == c as int);
                assert(cat[c as int].0 == self.presets@[c as int].0@);
                assert(cells_view(header@) =~= before.push((cat[c as int].0, cat[c as int].0)));
                assert(header_texts(cat, cs.take(q + 1)) =~= header_texts(cat, cs.take(q as int)).push(
                    cat[c as int].0,
                ));
                assert(plain(header_texts(cat, cs.take(q + 1))) =~= plain(
                    header_texts(cat, cs.take(q as int)),
                ).push((cat[c as int].0, cat[c as int].0)));
            }
            q = q + 1;
        }
        proof {
            assert(cs.take(q as int) =~= cs);
        }
        let params = self.table_params(settings, full);
        let ghost pv = params@.map_values(|k: String| k@);
        let mut body: Vec<Vec<(String, String)>> = Vec::new();
        let mut i: usize = 0;
        while i < params.len()
            invariant
                self.wf(),
                settings.wf(),
                cat == self.catalog(),
                obs == settings@,
                cs == ints(cands@),
                forall|j: int| 0 <= j < cands@.len() ==> #[trigger] cands@[j] < cat.len(),
                pv == params@.map_values(|k: String| k@),
                i <= params@.len(),
                body@.len() == i,
                forall|r: int| 0 <= r < i ==> #[trigger] body@[r]@.len() == cands@.len() + 2,
                forall|r: int, j: int|
                    0 <= r < i && 0 <= j < cands@.len() + 2 ==> {
                        &&& #[trigger] rows_view(body@)[r][j].0 == cell_text(cat, to_map(obs), cs, pv[r], j)
                        &&& shown_as(
                            rows_view(body@)[r][j].0,
                            rows_view(body@)[r][j].1,
                            cell_code(cat, to_map(obs), cs, pv[r], j),
                            use_color,
                        )
                    },
            decreases params@.len() - i,
        {
            let row = self.comparison_row(settings, &params[i], &cands, use_color);
            let ghost before = body@;
            body.push(row);
            proof {
                assert forall|r: int, j: int| 0 <= r < i + 1 && 0 <= j < cands@.len() + 2 implies {
                    &&& #[trigger] rows_view(body@)[r][j].0 == cell_text(cat, to_map(obs), cs, pv[r], j)
                    &&& shown_as(
                        rows_view(body@)[r][j].0,
                        rows_view(body@)[r][j].1,
                        cell_code(cat, to_map(obs), cs, pv[r], j),
                        use_color,
                    )
                } by {
                    if r < i {
                        assert(body@[r] == before[r]);
                        assert(rows_view(body@)[r] == rows_view(before)[r]);
                    } else {
                        assert(rows_view(body@)[r] == cells_view(row@));
                    }
                }
                assert forall|r: int| 0 <= r < i + 1 implies #[trigger] body@[r]@.len() == cands@.len() + 2 by {
                    if r < i {
                        assert(body@[r] == before[r]);
                    }
                }
            }
            i = i + 1;
        }
        let out = render_table(&header, &body);
        proof {
            let bv = rows_view(body@);
            assert(is_comparison_body(cat, obs, cs, self.verbose() >= 2, use_color, bv));
            if !use_color {
                let params_spec = shown_params(obs, schema(cat), self.verbose() >= 2);
                let grid = Seq::new(
                    params_spec.len(),
                    |r: int|
                        plain(
                            Seq::new(
                                cs.len() + 2,
                                |j: int| cell_text(cat, to_map(obs), cs, params_spec[r], j),
                            ),
                        ),
                );
                assert forall|r: int| 0 <= r < bv.len() implies #[trigger] bv[r] =~= grid[r] by {
                    assert forall|j: int| 0 <= j < cs.len() + 2 implies #[trigger] bv[r][j] == grid[r][j] by {
                        assert(bv[r][j].0 == cell_text(cat, to_map(obs), cs, pv[r], j));
                    }
                }
                assert(bv =~= grid);
            }
        }
        out
    }

    /// The comparison table of `settings` against the best-ranked presets,
    /// styled where the color mode asks for it (in `Auto`, when standard
    /// output is a terminal).
    pub fn partially_matching_presets(&self, settings: &Settings) -> (r: String)
        requires
            self.wf(),
            settings.wf(),
        ensures
            exists|color: bool| self.is_comparison_table(settings@, color, r@),
            self.color() == ColorMode::Always ==> self.is_comparison_table(settings@, true, r@),
            self.color() == ColorMode::Never ==> r@ == self.plain_comparison_table(settings@),
    {
        let use_color = match self.cli.color {
            ColorMode::Auto => stdout_is_terminal(),
            ColorMode::Always => true,
            ColorMode::Never => false,
        };
        self.comparison_table(settings, use_color)
    }
    /// The names of the presets consistent with `observed`, in catalog order.
    pub open spec fn matches_of(&self, observed: Seq<Entry>) -> Seq<Seq<char>> {
        matching_names(self.catalog(), to_map(observed))
    }

    /// `r` is what identifying `observed` reports: the one matching preset's
    /// name; or, when several match, their names; or, when none does, the
    /// ranking (at verbosity 0) or the comparison table (above 0).
    pub open spec fn reports(&self, observed: Seq<Entry>, r: Result<String, String>) -> bool {
        let names = self.matches_of(observed);
        &&& (r is Ok <==> names.len() == 1)
        &&& (r matches Ok(n) ==> n@ == names[0])
        &&& (names.len() >= 2 ==> r is Err && r->Err_0@ == "Multiple matching presets found: "@
            + names_text(names))
        &&& (names.len() == 0 && self.verbose() == 0 ==> r is Err && r->Err_0@
            == "No matching presets found. Closest matches:\n:"@ + pairs_text(
            self.ranking(observed),
        ))
        &&& (names.len() == 0 && self.verbose() > 0 ==> r is Err && exists|t: Seq<char>|
            r->Err_0@ == "No matching presets found. Partial matches:\n\n"@ + t && (exists|
                color: bool,
            | self.is_comparison_table(observed, color, t)) && (self.color() == ColorMode::Always
                ==> self.is_comparison_table(observed, true, t)) && (self.color()
                == ColorMode::Never ==> t == self.plain_comparison_table(observed)))
    }

    /// Identifies the preset that `settings` comes from: `Ok` with its name
    /// when exactly one preset matches, else `Err` with a message.
    pub fn determine_preset(&self, settings: &Settings) -> (r: Result<String, String>)
        requires
            self.wf(),
            settings.wf(),
        ensures
            self.reports(settings@, r),
    {
        let names = self.matching_presets(settings);
        let ghost nv = names@.map_values(|n: String| n@);
        if names.len() == 0 {
            if self.cli.verbose > 0 {
                let table = self.partially_matching_presets(settings);
                let mut e = String::from_str("No matching presets found. Partial matches:\n\n");
                let ghost prefix = e@;
                e.append(table.as_str());
                proof {
                    assert(e@ == prefix + table@);
                }
                Err(e)
            } else {
                let ranking = self.closest_matches(settings);
                let mut e = String::from_str("No matching presets found. Closest matches:\n:");
                e.append(pairs_list(&ranking).as_str());
                Err(e)
            }
        } else if names.len() == 1 {
            proof {
                assert(nv[0] == names@[0]@);
            }
            Ok(names[0].clone())
        } else {
            let mut e = String::from_str("Multiple matching presets found: ");
            e.append(names_list(&names).as_str());
            Err(e)
        }
    }

    /// Reads the flags in `input`, corrects them with `normalize`, and
    /// identifies the preset they come from.
    pub fn determine_preset_from_str(&self, input: &str) -> (r: Result<String, String>)
        requires
            self.wf(),
        ensures
            self.reports(normalized(parse_settings(input@)), r),
    {
        let mut settings = parse_string(input);
        normalize(&mut settings);
        self.determine_preset(&settings)
    }
}

impl Default for Determiner {
    fn default() -> (r: Determiner)
        ensures
            r.wf(),
            r.catalog() == reference_catalog(),
            r.verbose() == 0,
            r.color() == ColorMode::Auto,
    {
        Determiner::new(Cli::default())
    }
}

/// The number of pairs of `observed` that `preset` holds with the same value.
fn agreement_count(observed: &Settings, preset: &Settings) -> (r: usize)
    requires
        preset.wf(),
    ensures
        r == agreement(observed@, preset.map()),
{
    let n = observed.len();
    let mut count: usize = 0;
    let mut i: usize = 0;
    while i < n
        invariant
            n == observed@.len(),
            i <= n,
            preset.wf(),
            count == agreement(observed@.take(i as int), preset.map()),
            count <= i,
        decreases n - i,
    {
        proof {
            assert(observed@.take(i + 1).drop_last() =~= observed@.take(i as int));
        }
        let (key, value) = observed.entry(i);
        match preset.get(key.as_str()) {
            Some(v) => {
                if *v == *value {
                    count = count + 1;
                }
            },
            None => {},
        }
        i = i + 1;
    }
    proof {
        assert(observed@.take(n as int) =~= observed@);
    }
    count
}

/// The catalog positions ranked as `ranked` orders them.
fn rank_positions(counts: &Vec<usize>) -> (r: Vec<usize>)
    ensures
        ints(r@) == ranked(nats(counts@)),
{
    let mut order: Vec<usize> = Vec::new();
    let mut i: usize = 0;
    while i < counts.len()
        invariant
            i <= counts@.len(),
            ints(order@) == ranked(nats(counts@).take(i as int)),
        decreases counts@.len() - i,
    {
        let ghost ct = nats(counts@).take(i + 1);
        proof {
            assert(ct.drop_last() =~= nats(counts@).take(i as int));
            lemma_ranked_permutation(ct.drop_last());
            assert forall|k: int| 0 <= k < order@.len() implies 0 <= #[trigger] order@[k] < i by {
                assert(ints(order@)[k] == order@[k] as int);
            }
            assert(ints(order@).skip(0) =~= ints(order@));
        }
        let c = counts[i];
        let mut p: usize = 0;
        while p < order.len() && counts[order[p]] > c
            invariant
                i < counts@.len(),
                ct == nats(counts@).take(i + 1),
                ints(order@) == ranked(ct.drop_last()),
                forall|k: int| 0 <= k < order@.len() ==> 0 <= #[trigger] order@[k] < i,
                order@.len() == i,
                p <= order@.len(),
                insert_pos(ints(order@), ct, c as nat) == p + insert_pos(
                    ints(order@).skip(p as int),
                    ct,
                    c as nat,
                ),
            decreases order@.len() - p,
        {
            proof {
                assert(ints(order@).skip(p as int).drop_first() =~= ints(order@).skip(p + 1));
                assert(ints(order@).skip(p as int)[0] == order@[p as int] as int);
            }
            p = p + 1;
        }
        proof {
            if p < order@.len() {
                assert(ints(order@).skip(p as int)[0] == order@[p as int] as int);
            }
            assert(ct.len() == i + 1);
            assert(ct[i as int] == c as nat);
        }
        order.insert(p, i);
        proof {
            assert(ints(order@) =~= ranked(ct.drop_last()).insert(p as int, i as int));
        }
        i = i + 1;
    }
    proof {
        assert(nats(counts@).take(i as int) =~= nats(counts@));
    }
    order
}

} // verus!
