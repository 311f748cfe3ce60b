//! How a rejection names what it would have accepted.
//!
//! One rule, applied everywhere a closed set is refused: **every canonical
//! spelling is named; aliases are not.** An alias is a second way to type an
//! option that is already listed, so leaving it out costs a caller nothing. A
//! missing *canonical* spelling hides an option entirely.
use crate::text;
use vstd::prelude::*;

verus! {

/// `` `v` ``
pub open spec fn quoted(v: Seq<char>) -> Seq<char> {
    seq!['`'] + v + seq!['`']
}

/// The values quoted and joined by `, `.
pub open spec fn quoted_list(values: Seq<Seq<char>>) -> Seq<char>
    decreases values.len(),
{
    if values.len() == 0 {
        seq![]
    } else if values.len() == 1 {
        quoted(values[0])
    } else {
        quoted_list(values.drop_last()) + seq![',', ' '] + quoted(values.last())
    }
}

/// A closed set as the tail of a rejection: nothing, one value, or all but the
/// last joined by commas and the last behind ` or `.
pub open spec fn one_of_text(values: Seq<Seq<char>>) -> Seq<char> {
    if values.len() == 0 {
        seq![]
    } else if values.len() == 1 {
        quoted(values[0])
    } else {
        quoted_list(values.drop_last()) + seq![' ', 'o', 'r', ' '] + quoted(values.last())
    }
}

/// The views of a list of texts.
pub open spec fn texts(values: Seq<&str>) -> Seq<Seq<char>> {
    values.map_values(|v: &str| v@)
}

fn push_quoted(out: &mut String, v: &str)
    ensures
        final(out)@ == old(out)@ + quoted(v@),
{
    out.push('`');
    out.append(v);
    out.push('`');
    proof {
        assert(out@ =~= old(out)@ + quoted(v@));
    }
}

/// Render a closed set as the tail of a rejection: ``` `a`, `b` or `c` ```.
pub fn one_of(values: &[&str]) -> (text: String)
    ensures
        text@ == one_of_text(texts(values@)),
{
    let mut out = String::new();
    if values.len() == 0 {
        return out;
    }
    let ghost all = texts(values@);
    let last: usize = values.len() - 1;
    let mut i: usize = 0;
    while i < last
        invariant
            last == values@.len() - 1,
            i <= last,
            all == texts(values@),
            out@ == quoted_list(all.take(i as int)),
        decreases last - i,
    {
        proof {
            assert(all.take(i + 1).drop_last() =~= all.take(i as int));
            assert(all.take(i + 1).last() == values@[i as int]@);
        }
        if i > 0 {
            out.push(',');
            out.push(' ');
            proof {
                assert(out@ =~= quoted_list(all.take(i as int)) + seq![',', ' ']);
            }
        }
        push_quoted(&mut out, values[i]);
        i += 1;
    }
    proof {
        assert(all.take(last as int) =~= all.drop_last());
        assert(all.last() == values@[last as int]@);
    }
    if last > 0 {
        out.push(' ');
        out.push('o');
        out.push('r');
        out.push(' ');
        proof {
            assert(out@ =~= quoted_list(all.drop_last()) + seq![' ', 'o', 'r', ' ']);
        }
    }
    push_quoted(&mut out, values[last]);
    proof {
        assert(Seq::<char>::empty() + quoted(all.last()) =~= quoted(all.last()));
    }
    out
}

/// Every value is named, between backquotes and in its place; commas stand between them,
/// and ` or ` before the last.
pub proof fn every_value_is_named(values: Seq<Seq<char>>, v: Seq<char>)
    ensures
        one_of_text(seq![v]) == seq!['`'] + v + seq!['`'],
        quoted_list(seq![v]) == seq!['`'] + v + seq!['`'],
        values.len() > 0 ==> quoted_list(values.push(v)) == quoted_list(values) + seq![',', ' ']
            + seq!['`'] + v + seq!['`'],
        values.len() > 0 ==> one_of_text(values.push(v)) == quoted_list(values) + seq![
            ' ',
            'o',
            'r',
            ' ',
        ] + seq!['`'] + v + seq!['`'],
{
    assert(values.push(v).drop_last() =~= values);
    if values.len() > 0 {
        assert(quoted_list(values.push(v)) =~= quoted_list(values) + seq![',', ' '] + seq!['`'] + v
            + seq!['`']);
        assert(one_of_text(values.push(v)) =~= quoted_list(values) + seq![' ', 'o', 'r', ' ']
            + seq!['`'] + v + seq!['`']);
    }
}

} // verus!
