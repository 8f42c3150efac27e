use vstd::prelude::*;
use vstd::string::*;

use crate::settings::{upsert, without_key, Entry, Settings};

verus! {

/// The characters with the Unicode `White_Space` property.
pub open spec fn is_space(c: char) -> bool {
    ||| '\u{9}' <= c <= '\u{d}'
    ||| c == ' '
    ||| c == '\u{85}'
    ||| c == '\u{a0}'
    ||| c == '\u{1680}'
    ||| '\u{2000}' <= c <= '\u{200a}'
    ||| c == '\u{2028}'
    ||| c == '\u{2029}'
    ||| c == '\u{202f}'
    ||| c == '\u{205f}'
    ||| c == '\u{3000}'
}

/// Reading `s` left to right: the words already closed by a space, and the
/// word still open at the end.
pub open spec fn scan(s: Seq<char>) -> (Seq<Seq<char>>, Seq<char>)
    decreases s.len(),
{
    if s.len() == 0 {
        (seq![], seq![])
    } else {
        let (done, open) = scan(s.drop_last());
        if is_space(s.last()) {
            if open.len() > 0 {
                (done.push(open), seq![])
            } else {
                (done, seq![])
            }
        } else {
            (done, open.push(s.last()))
        }
    }
}

/// The maximal runs of non-space characters of `s`, in order.
pub open spec fn words(s: Seq<char>) -> Seq<Seq<char>> {
    let (done, open) = scan(s);
    if open.len() > 0 {
        done.push(open)
    } else {
        done
    }
}

/// `i` is the position of the first `=` in `t`.
pub open spec fn first_eq_at(t: Seq<char>, i: int) -> bool {
    &&& 0 <= i < t.len()
    &&& t[i] == '='
    &&& forall|j: int| 0 <= j < i ==> t[j] != '='
}

/// A word split at its first `=` into name and value; `None` for a word with no `=`.
pub open spec fn split_pair(t: Seq<char>) -> Option<Entry> {
    if exists|i: int| first_eq_at(t, i) {
        let i = choose|i: int| first_eq_at(t, i);
        Some((t.take(i), t.skip(i + 1)))
    } else {
        None
    }
}

/// The pairs of the words, a later value for a name replacing the earlier one.
pub open spec fn collect_pairs(ws: Seq<Seq<char>>) -> Seq<Entry>
    decreases ws.len(),
{
    if ws.len() == 0 {
        seq![]
    } else {
        let acc = collect_pairs(ws.drop_last());
        match split_pair(ws.last()) {
            Some(e) => upsert(acc, e.0, e.1),
            None => acc,
        }
    }
}

/// The settings that a raw flag string gives.
pub open spec fn parse_settings(s: Seq<char>) -> Seq<Entry> {
    collect_pairs(words(s))
}

/// The views of a list of strings.
pub open spec fn views(v: Seq<String>) -> Seq<Seq<char>> {
    v.map_values(|w: String| w@)
}

/// Whether `c` is whitespace, as `char::is_whitespace` decides it.
pub fn is_space_char(c: char) -> (r: bool)
    ensures
        r == is_space(c),
{
    ('\u{9}' <= c && c <= '\u{d}') || c == ' ' || c == '\u{85}' || c == '\u{a0}' || c
        == '\u{1680}' || ('\u{2000}' <= c && c <= '\u{200a}') || c == '\u{2028}' || c
        == '\u{2029}' || c == '\u{202f}' || c == '\u{205f}' || c == '\u{3000}'
}

/// Splits `input` into its whitespace-separated words.
pub fn split_words(input: &str) -> (r: Vec<String>)
    ensures
        views(r@) == words(input@),
{
    let n = input.unicode_len();
    let mut out: Vec<String> = Vec::new();
    let mut start: usize = 0;
    let mut i: usize = 0;
    while i < n
        invariant
            n == input@.len(),
            start <= i <= n,
            scan(input@.take(i as int)) == (views(out@), input@.subrange(start as int, i as int)),
        decreases n - i,
    {
        let c = input.get_char(i);
        let ghost before = views(out@);
        proof {
            assert(input@.take(i + 1).drop_last() =~= input@.take(i as int));
        }
        if is_space_char(c) {
            if start < i {
                let w = String::from_str(input.substring_char(start, i));
                out.push(w);
                proof {
                    assert(views(out@) =~= before.push(input@.subrange(start as int, i as int)));
                }
            }
            start = i + 1;
            proof {
                assert(input@.subrange(start as int, i + 1) =~= Seq::<char>::empty());
            }
        } else {
            proof {
                assert(input@.subrange(start as int, i as int).push(c) =~= input@.subrange(
                    start as int,
                    i + 1,
                ));
            }
        }
        i = i + 1;
    }
    proof {
        assert(input@.take(n as int) =~= input@);
    }
    if start < n {
        let ghost before = views(out@);
        let w = String::from_str(input.substring_char(start, n));
        out.push(w);
        proof {
            assert(views(out@) =~= before.push(input@.subrange(start as int, n as int)));
        }
    }
    out
}

/// Splits `word` at its first `=` into name and value.
pub fn split_pair_of(word: &String) -> (r: Option<(String, String)>)
    ensures
        r is None <==> split_pair(word@) is None,
        r matches Some(p) ==> split_pair(word@) == Some((p.0@, p.1@)),
{
    let t = word.as_str();
    let n = t.unicode_len();
    let mut i: usize = 0;
    while i < n
        invariant
            n == t@.len(),
            t@ == word@,
            i <= n,
            forall|j: int| 0 <= j < i ==> t@[j] != '=',
        decreases n - i,
    {
        if t.get_char(i) == '=' {
            let name = String::from_str(t.substring_char(0, i));
            let value = String::from_str(t.substring_char(i + 1, n));
            proof {
                assert(first_eq_at(word@, i as int));
                let k = choose|k: int| first_eq_at(word@, k);
                assert(k == i) by {
                    if k < i {
                        assert(t@[k] != '=');
                    } else if k > i {
                        assert(word@[i as int] != '=');
                    }
                }
                assert(word@.take(i as int) =~= t@.subrange(0, i as int));
                assert(word@.skip(i + 1) =~= t@.subrange(i + 1, n as int));
            }
            return Some((name, value));
        }
        i = i + 1;
    }
    None
}

/// Reads `name=value` words out of `input`: other words are skipped, each word
/// is split at its first `=`, and a later value for a name replaces the earlier one.
pub fn parse_string(input: &str) -> (r: Settings)
    ensures
        r.wf(),
        r@ == parse_settings(input@),
{
    let ws = split_words(input);
    let mut settings = Settings::new();
    let mut i: usize = 0;
    while i < ws.len()
        invariant
            i <= ws@.len(),
            settings.wf(),
            views(ws@) == words(input@),
            settings@ == collect_pairs(views(ws@).take(i as int)),
        decreases ws@.len() - i,
    {
        proof {
            assert(views(ws@).take(i + 1).drop_last() =~= views(ws@).take(i as int));
        }
        match split_pair_of(&ws[i]) {
            Some((name, value)) => {
                settings.insert(name, value);
            },
            None => {},
        }
        i = i + 1;
    }
    proof {
        assert(views(ws@).take(i as int) =~= views(ws@));
    }
    settings
}

/// The two corrections made to observed settings before they are compared:
/// `me` is dropped, and a `lookahead-slices` of `0` is read as `1`.
pub open spec fn normalized(s: Seq<Entry>) -> Seq<Entry> {
    let s1 = without_key(s, "me"@);
    if exists|i: int|
        0 <= i < s1.len() && s1[i] == ("lookahead-slices"@, "0"@) {
        upsert(s1, "lookahead-slices"@, "1"@)
    } else {
        s1
    }
}

/// The same corrections, on the settings read as a map.
pub open spec fn normalized_map(m: Map<Seq<char>, Seq<char>>) -> Map<Seq<char>, Seq<char>> {
    let m1 = m.remove("me"@);
    if m1.contains_key("lookahead-slices"@) && m1["lookahead-slices"@] == "0"@ {
        m1.insert("lookahead-slices"@, "1"@)
    } else {
        m1
    }
}

/// Applies the corrections of `normalized` to observed settings.
pub fn normalize(settings: &mut Settings)
    requires
        old(settings).wf(),
    ensures
        final(settings).wf(),
        final(settings)@ == normalized(old(settings)@),
        final(settings).map() == normalized_map(old(settings).map()),
{
    settings.remove("me");
    let zero = String::from_str("0");
    let is_zero = match settings.get("lookahead-slices") {
        Some(v) => *v == zero,
        None => false,
    };
    let ghost s1 = settings@;
    proof {
        crate::settings::lemma_map_entry_equiv(s1, "lookahead-slices"@, "0"@);
    }
    if is_zero {
        settings.insert(String::from_str("lookahead-slices"), String::from_str("1"));
    }
}

} // verus!
