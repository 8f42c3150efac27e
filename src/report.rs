use vstd::prelude::*;
use vstd::string::*;

verus! {

/// What `{:?}` prints for a string: the string quoted, with its special
/// characters escaped.
pub uninterp spec fn debug_text(s: Seq<char>) -> Seq<char>;

/// Relies on `<str as Debug>::fmt`, through `format!("{:?}")`: its output
/// depends on the characters alone.
#[verifier::external_body]
fn debug_quoted(s: &String) -> (r: String)
    ensures
        r@ == debug_text(s@),
{
    format!("{:?}", s)
}

/// The decimal digit `d`.
pub open spec fn digit(d: nat) -> char {
    seq!['0', '1', '2', '3', '4', '5', '6', '7', '8', '9'][d as int]
}

/// `n` written in decimal, without leading zeros.
pub open spec fn decimal(n: nat) -> Seq<char>
    decreases n,
{
    if n < 10 {
        seq![digit(n)]
    } else {
        decimal(n / 10).push(digit(n % 10))
    }
}

/// Relies on `usize`'s `Display`, through `to_string`: `n` in decimal.
#[verifier::external_body]
fn decimal_text(n: usize) -> (r: String)
    ensures
        r@ == decimal(n as nat),
{
    n.to_string()
}

/// The items separated by `, `.
pub open spec fn joined(items: Seq<Seq<char>>) -> Seq<char>
    decreases items.len(),
{
    if items.len() == 0 {
        seq![]
    } else if items.len() == 1 {
        items[0]
    } else {
        joined(items.drop_last()) + ", "@ + items.last()
    }
}

/// A list as `{:?}` prints it, from the printed items.
pub open spec fn list_text(items: Seq<Seq<char>>) -> Seq<char> {
    "["@ + joined(items) + "]"@
}

/// A list of names as `{:?}` prints it.
pub open spec fn names_text(names: Seq<Seq<char>>) -> Seq<char> {
    list_text(names.map_values(|n: Seq<char>| debug_text(n)))
}

/// A name and a count as `{:?}` prints the pair.
pub open spec fn pair_text(name: Seq<char>, count: nat) -> Seq<char> {
    "("@ + debug_text(name) + ", "@ + decimal(count) + ")"@
}

/// A list of names with counts as `{:?}` prints it.
pub open spec fn pairs_text(pairs: Seq<(Seq<char>, nat)>) -> Seq<char> {
    list_text(pairs.map_values(|p: (Seq<char>, nat)| pair_text(p.0, p.1)))
}

/// Brackets the printed items, separated by `, `.
fn list_of(items: &Vec<String>) -> (r: String)
    ensures
        r@ == list_text(items@.map_values(|s: String| s@)),
{
    let ghost views = items@.map_values(|s: String| s@);
    let mut out = String::new();
    let mut i: usize = 0;
    while i < items.len()
        invariant
            i <= items@.len(),
            views == items@.map_values(|s: String| s@),
            out@ == joined(views.take(i as int)),
        decreases items@.len() - i,
    {
        proof {
            assert(views.take(i + 1).drop_last() =~= views.take(i as int));
        }
        if i > 0 {
            out.append(", ");
        } else {
            proof {
                assert(out@ =~= Seq::<char>::empty());
            }
        }
        out.append(items[i].as_str());
        i = i + 1;
    }
    proof {
        assert(views.take(i as int) =~= views);
    }
    let mut r = String::from_str("[");
    r.append(out.as_str());
    r.append("]");
    r
}

/// `names` as `{:?}` prints a list of strings.
pub fn names_list(names: &Vec<String>) -> (r: String)
    ensures
        r@ == names_text(names@.map_values(|s: String| s@)),
{
    let mut items: Vec<String> = Vec::new();
    let mut i: usize = 0;
    while i < names.len()
        invariant
            i <= names@.len(),
            items@.map_values(|s: String| s@) == names@.map_values(|s: String| s@).take(
                i as int,
            ).map_values(|n: Seq<char>| debug_text(n)),
        decreases names@.len() - i,
    {
        let ghost before = items@.map_values(|s: String| s@);
        let q = debug_quoted(&names[i]);
        items.push(q);
        proof {
            assert(items@.map_values(|s: String| s@) =~= before.push(q@));
            assert(names@.map_values(|s: String| s@).take(i + 1) =~= names@.map_values(
                |s: String| s@,
            ).take(i as int).push(names@[i as int]@));
            assert(items@.map_values(|s: String| s@) =~= names@.map_values(|s: String| s@).take(
                i + 1,
            ).map_values(|n: Seq<char>| debug_text(n)));
        }
        i = i + 1;
    }
    proof {
        assert(names@.map_values(|s: String| s@).take(i as int) =~= names@.map_values(
            |s: String| s@,
        ));
    }
    list_of(&items)
}

/// `pairs` as `{:?}` prints a list of (string, count) pairs.
pub fn pairs_list(pairs: &Vec<(String, usize)>) -> (r: String)
    ensures
        r@ == pairs_text(pairs@.map_values(|p: (String, usize)| (p.0@, p.1 as nat))),
{
    let ghost pv = pairs@.map_values(|p: (String, usize)| (p.0@, p.1 as nat));
    let mut items: Vec<String> = Vec::new();
    let mut i: usize = 0;
    while i < pairs.len()
        invariant
            i <= pairs@.len(),
            pv == pairs@.map_values(|p: (String, usize)| (p.0@, p.1 as nat)),
            items@.map_values(|s: String| s@) == pv.take(i as int).map_values(
                |p: (Seq<char>, nat)| pair_text(p.0, p.1),
            ),
        decreases pairs@.len() - i,
    {
        let mut item = String::from_str("(");
        item.append(debug_quoted(&pairs[i].0).as_str());
        item.append(", ");
        item.append(decimal_text(pairs[i].1).as_str());
        item.append(")");
        let ghost before = items@.map_values(|s: String| s@);
        items.push(item);
        proof {
            assert(items@.map_values(|s: String| s@) =~= before.push(item@));
            assert(pv.take(i + 1) =~= pv.take(i as int).push(pv[i as int]));
            assert(items@.map_values(|s: String| s@) =~= pv.take(i + 1).map_values(
                |p: (Seq<char>, nat)| pair_text(p.0, p.1),
            ));
        }
        i = i + 1;
    }
    proof {
        assert(pv.take(i as int) =~= pv);
    }
    list_of(&items)
}

} // verus!
