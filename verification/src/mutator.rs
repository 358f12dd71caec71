//! The value transitions: flipping a boolean spelling and stepping through
//! the values an enumeration allows.

use crate::text::{
    chars_of, first_index, fold_case, lemma_first_index, lemma_first_index_is, reads_as, same_text,
    texts,
};
use vstd::prelude::*;

verus! {

/// What toggling makes of a value. The five spellings of "on" and the five
/// of "off" are told apart whatever their case and answered by the upper-case
/// spelling opposite; the unset values (empty, `ignore`, `notfound`) become
/// `ON`; any other value stays as it is.
pub open spec fn toggled(value: Seq<char>) -> Seq<char> {
    let v = fold_case(value);
    if v == "on"@ {
        "OFF"@
    } else if v == "true"@ {
        "FALSE"@
    } else if v == "yes"@ {
        "NO"@
    } else if v == "y"@ {
        "N"@
    } else if v == "1"@ {
        "0"@
    } else if v == "off"@ {
        "ON"@
    } else if v == "false"@ {
        "TRUE"@
    } else if v == "no"@ {
        "YES"@
    } else if v == "n"@ {
        "Y"@
    } else if v == "0"@ {
        "1"@
    } else if v.len() == 0 || v == "ignore"@ || v == "notfound"@ {
        "ON"@
    } else {
        value
    }
}

/// The value after `current` in `allowed`, the first after the last; the
/// first also where `current` is not in the list. With nothing allowed the
/// value stays.
pub open spec fn cycled(allowed: Seq<Seq<char>>, current: Seq<char>) -> Seq<char> {
    let at = first_index(allowed, current);
    if allowed.len() == 0 {
        current
    } else if 0 <= at && at + 1 < allowed.len() {
        allowed[at + 1]
    } else {
        allowed[0]
    }
}

/// The opposite spelling of a boolean value.
pub fn toggle_bool(value: &str) -> (r: String)
    ensures
        r@ == toggled(value@),
{
    let v = chars_of(value);
    if reads_as(&v, "on") {
        "OFF".to_owned()
    } else if reads_as(&v, "true") {
        "FALSE".to_owned()
    } else if reads_as(&v, "yes") {
        "NO".to_owned()
    } else if reads_as(&v, "y") {
        "N".to_owned()
    } else if reads_as(&v, "1") {
        "0".to_owned()
    } else if reads_as(&v, "off") {
        "ON".to_owned()
    } else if reads_as(&v, "false") {
        "TRUE".to_owned()
    } else if reads_as(&v, "no") {
        "YES".to_owned()
    } else if reads_as(&v, "n") {
        "Y".to_owned()
    } else if reads_as(&v, "0") {
        "1".to_owned()
    } else if v.len() == 0 || reads_as(&v, "ignore") || reads_as(&v, "notfound") {
        "ON".to_owned()
    } else {
        value.to_owned()
    }
}

/// The value that follows `current` among the allowed ones.
pub fn cycle_enum(allowed: &Vec<String>, current: &str) -> (r: String)
    ensures
        r@ == cycled(texts(allowed@), current@),
{
    let ghost list = texts(allowed@);
    if allowed.len() == 0 {
        return current.to_owned();
    }
    let mut i: usize = 0;
    while i < allowed.len()
        invariant
            i <= allowed.len(),
            list == texts(allowed@),
            forall|j: int| 0 <= j < i ==> list[j] != current@,
        decreases allowed.len() - i,
    {
        if same_text(allowed[i].as_str(), current) {
            let next: usize = if i + 1 == allowed.len() {
                0
            } else {
                i + 1
            };
            proof {
                assert(list[i as int] == current@);
                lemma_first_index_is(list, current@, i as int);
                assert(list[next as int] == allowed@[next as int]@);
            }
            return allowed[next].clone();
        }
        i = i + 1;
    }
    proof {
        lemma_first_index_is(list, current@, list.len() as int);
    }
    allowed[0].clone()
}

/// Cycling with a list to choose from never leaves the list.
pub proof fn lemma_cycled_is_allowed(allowed: Seq<Seq<char>>, current: Seq<char>)
    requires
        allowed.len() > 0,
    ensures
        allowed.contains(cycled(allowed, current)),
{
    lemma_first_index(allowed, current);
}

/// Whether a case-folded value is one of the ten paired spellings.
pub open spec fn is_paired(v: Seq<char>) -> bool {
    v == "on"@ || v == "true"@ || v == "yes"@ || v == "y"@ || v == "1"@ || v == "off"@ || v
        == "false"@ || v == "no"@ || v == "n"@ || v == "0"@
}

/// Whether a case-folded value is one of the three that stand for "unset".
pub open spec fn is_unset(v: Seq<char>) -> bool {
    v.len() == 0 || v == "ignore"@ || v == "notfound"@
}

/// How long each lower-case spelling is and how it begins, which tells any
/// two of them apart, and how the upper-case spellings fold.
proof fn lemma_spellings()
    ensures
        "on"@.len() == 2 && "on"@[0] == 'o',
        "true"@.len() == 4 && "true"@[0] == 't',
        "yes"@.len() == 3 && "yes"@[0] == 'y',
        "y"@.len() == 1 && "y"@[0] == 'y',
        "1"@.len() == 1 && "1"@[0] == '1',
        "off"@.len() == 3 && "off"@[0] == 'o',
        "false"@.len() == 5 && "false"@[0] == 'f',
        "no"@.len() == 2 && "no"@[0] == 'n',
        "n"@.len() == 1 && "n"@[0] == 'n',
        "0"@.len() == 1 && "0"@[0] == '0',
        "ignore"@.len() == 6 && "ignore"@[0] == 'i',
        "notfound"@.len() == 8 && "notfound"@[0] == 'n',
        fold_case("ON"@) == "on"@,
        fold_case("TRUE"@) == "true"@,
        fold_case("YES"@) == "yes"@,
        fold_case("Y"@) == "y"@,
        fold_case("1"@) == "1"@,
        fold_case("OFF"@) == "off"@,
        fold_case("FALSE"@) == "false"@,
        fold_case("NO"@) == "no"@,
        fold_case("N"@) == "n"@,
        fold_case("0"@) == "0"@,
{
    reveal_strlit("on");
    reveal_strlit("true");
    reveal_strlit("yes");
    reveal_strlit("y");
    reveal_strlit("1");
    reveal_strlit("off");
    reveal_strlit("false");
    reveal_strlit("no");
    reveal_strlit("n");
    reveal_strlit("0");
    reveal_strlit("ignore");
    reveal_strlit("notfound");
    reveal_strlit("ON");
    reveal_strlit("TRUE");
    reveal_strlit("YES");
    reveal_strlit("Y");
    reveal_strlit("OFF");
    reveal_strlit("FALSE");
    reveal_strlit("NO");
    reveal_strlit("N");
    assert(fold_case("ON"@) =~= "on"@);
    assert(fold_case("TRUE"@) =~= "true"@);
    assert(fold_case("YES"@) =~= "yes"@);
    assert(fold_case("Y"@) =~= "y"@);
    assert(fold_case("1"@) =~= "1"@);
    assert(fold_case("OFF"@) =~= "off"@);
    assert(fold_case("FALSE"@) =~= "false"@);
    assert(fold_case("NO"@) =~= "no"@);
    assert(fold_case("N"@) =~= "n"@);
    assert(fold_case("0"@) =~= "0"@);
}

/// Toggling is a round trip on the paired spellings: a value that reads as
/// one of them toggles to the opposite upper-case spelling, which toggles
/// back to the value's own spelling in upper case and from there forth and
/// back for ever.
pub proof fn lemma_toggle_round_trip(value: Seq<char>)
    requires
        is_paired(fold_case(value)),
    ensures
        is_paired(fold_case(toggled(value))),
        toggled(value) != value,
        fold_case(toggled(toggled(value))) == fold_case(value),
        toggled(toggled(toggled(value))) == toggled(value),
{
    lemma_spellings();
}

/// Toggling leaves the unset values for good: each becomes `ON`, which is a
/// paired spelling, and no value at all toggles to an unset one.
pub proof fn lemma_toggle_leaves_unset(value: Seq<char>)
    ensures
        is_unset(fold_case(value)) ==> toggled(value) == "ON"@ && toggled(toggled(value)) == "OFF"@,
        !is_unset(fold_case(toggled(value))),
        !is_paired(fold_case(value)) && !is_unset(fold_case(value)) ==> toggled(value) == value,
{
    lemma_spellings();
}

} // verus!
