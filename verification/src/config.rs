//! The compiled-in allow-list: names kept verbatim regardless of their
//! codepoints, chiefly ligatures, alternates and old-style figures that
//! carry no codepoint of their own.

use vstd::prelude::*;

verus! {

/// The names of the compiled-in allow-list, in order.
pub open spec fn allow_list_names() -> Seq<Seq<char>> {
    seq![
        "eacute"@,
        "egrave"@,
        ".notdef"@,
        "f_f"@,
        "f_i"@,
        "f_f_i"@,
        "g.salt"@,
        "zero.slash"@,
        "zero.osf"@,
        "one.osf"@,
        "two.osf"@,
        "three.osf"@,
        "four.osf"@,
        "five.osf"@,
        "six.osf"@,
        "seven.osf"@,
        "eight.osf"@,
        "nine.osf"@,
    ]
}

/// Builds the compiled-in allow-list.
pub fn default_allow_list() -> (r: Vec<String>)
    ensures
        crate::model::svs(r@) == allow_list_names(),
{
    let mut v: Vec<String> = Vec::new();
    v.push("eacute".to_owned());
    v.push("egrave".to_owned());
    v.push(".notdef".to_owned());
    v.push("f_f".to_owned());
    v.push("f_i".to_owned());
    v.push("f_f_i".to_owned());
    v.push("g.salt".to_owned());
    v.push("zero.slash".to_owned());
    v.push("zero.osf".to_owned());
    v.push("one.osf".to_owned());
    v.push("two.osf".to_owned());
    v.push("three.osf".to_owned());
    v.push("four.osf".to_owned());
    v.push("five.osf".to_owned());
    v.push("six.osf".to_owned());
    v.push("seven.osf".to_owned());
    v.push("eight.osf".to_owned());
    v.push("nine.osf".to_owned());
    proof {
        assert(crate::model::svs(v@) =~= allow_list_names());
    }
    v
}

} // verus!
