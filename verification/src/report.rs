//! The output of a search: one line of text for each line reported, made of
//! the file's name, the line's position in round brackets and the line.

use vstd::prelude::*;
use crate::scan::found_view;

verus! {

/// The character for a decimal digit.
pub open spec fn digit(value: int) -> char {
    seq!['0', '1', '2', '3', '4', '5', '6', '7', '8', '9'][value]
}

/// `n` written in decimal, without leading zeros.
pub open spec fn decimal(n: nat) -> Seq<char>
    decreases n,
{
    if n < 10 {
        seq![digit(n as int)]
    } else {
        decimal(n / 10).push(digit((n % 10) as int))
    }
}

/// The output line for one reported line: `<file> (<index>): <text>`.
pub open spec fn report_line(file_name: Seq<char>, index: nat, text: Seq<char>) -> Seq<char> {
    file_name + seq![' ', '('] + decimal(index) + seq![')', ':', ' '] + text
}

/// The output lines for `found`, reported of the file `file_name`: one for
/// each, in the same order.
pub open spec fn output_of(file_name: Seq<char>, found: Seq<(int, Seq<char>)>) -> Seq<Seq<char>> {
    Seq::new(found.len(), |k: int| report_line(file_name, found[k].0 as nat, found[k].1))
}

/// What a list of texts holds.
pub open spec fn strings_view(list: Seq<String>) -> Seq<Seq<char>> {
    Seq::new(list.len(), |k: int| list[k]@)
}

/// The digit `value` as text.
fn digit_text(value: usize) -> (r: &'static str)
    requires
        value < 10,
    ensures
        r@ == seq![digit(value as int)],
{
    let r = match value {
        0 => "0",
        1 => "1",
        2 => "2",
        3 => "3",
        4 => "4",
        5 => "5",
        6 => "6",
        7 => "7",
        8 => "8",
        _ => "9",
    };
    proof {
        reveal_strlit("0");
        reveal_strlit("1");
        reveal_strlit("2");
        reveal_strlit("3");
        reveal_strlit("4");
        reveal_strlit("5");
        reveal_strlit("6");
        reveal_strlit("7");
        reveal_strlit("8");
        reveal_strlit("9");
        assert(r@ =~= seq![digit(value as int)]);
    }
    r
}

/// `n` in decimal.
pub fn decimal_text(n: usize) -> (r: String)
    ensures
        r@ == decimal(n as nat),
    decreases n,
{
    if n < 10 {
        digit_text(n).to_owned()
    } else {
        let mut r = decimal_text(n / 10);
        r.append(digit_text(n % 10));
        assert(r@ =~= decimal(n as nat));
        r
    }
}

/// The output line for the line at `index` of the file `file_name`.
pub fn format_match(file_name: &str, index: usize, text: &str) -> (r: String)
    ensures
        r@ == report_line(file_name@, index as nat, text@),
{
    let mut r = file_name.to_owned();
    r.append(" (");
    r.append(decimal_text(index).as_str());
    r.append("): ");
    r.append(text);
    proof {
        reveal_strlit(" (");
        reveal_strlit("): ");
        assert(" ("@ =~= seq![' ', '(']);
        assert("): "@ =~= seq![')', ':', ' ']);
    }
    r
}

/// The output for the lines reported of one file, in their order.
pub fn report(file_name: &str, results: &Vec<(usize, String)>) -> (out: Vec<String>)
    ensures
        strings_view(out@) == output_of(file_name@, found_view(results@)),
{
    let mut out: Vec<String> = Vec::new();
    let mut k: usize = 0;
    while k < results.len()
        invariant
            k <= results@.len(),
            strings_view(out@) == output_of(file_name@, found_view(results@.subrange(0, k as int))),
        decreases results@.len() - k,
    {
        let ghost before = strings_view(out@);
        let line = format_match(file_name, results[k].0, results[k].1.as_str());
        out.push(line);
        assert(strings_view(out@) =~= before.push(line@));
        assert(found_view(results@.subrange(0, k + 1)) =~= found_view(
            results@.subrange(0, k as int),
        ).push((results@[k as int].0 as int, results@[k as int].1@)));
        k += 1;
    }
    assert(results@.subrange(0, k as int) =~= results@);
    out
}

} // verus!
