//! Small strings: digits, padding and search.
use vstd::prelude::*;

verus! {

/// `count` spaces.
pub open spec fn blanks(count: nat) -> Seq<char> {
    Seq::new(count, |i: int| ' ')
}

/// The decimal digit `d`.
pub open spec fn digit(d: int) -> char {
    (d + '0' as int) as char
}

/// `n` in decimal, without leading zeros.
pub open spec fn decimal(n: nat) -> Seq<char>
    decreases n,
{
    if n < 10 {
        seq![digit(n as int)]
    } else {
        decimal(n / 10).push(digit((n % 10) as int))
    }
}

/// `text` moved to the right edge of a field of `width` columns; longer text is kept whole.
pub open spec fn right_aligned(text: Seq<char>, width: nat) -> Seq<char> {
    if text.len() < width {
        blanks((width - text.len()) as nat) + text
    } else {
        text
    }
}

/// `needle` stands in `haystack` from `at` on.
pub open spec fn occurs_at(needle: Seq<char>, haystack: Seq<char>, at: int) -> bool {
    0 <= at && at + needle.len() <= haystack.len() && haystack.subrange(at, at + needle.len())
        == needle
}

/// `needle` stands somewhere in `haystack`.
pub open spec fn occurs_in(needle: Seq<char>, haystack: Seq<char>) -> bool {
    exists|at: int| occurs_at(needle, haystack, at)
}

/// A text stands in another exactly if the other is made up of the text, something before it and
/// something after it.
pub proof fn lemma_occurrence_splits(needle: Seq<char>, haystack: Seq<char>)
    ensures
        occurs_in(needle, haystack) <==> exists|before: Seq<char>, after: Seq<char>|
            haystack == #[trigger] (before + needle + after),
{
    if occurs_in(needle, haystack) {
        let at = choose|at: int| occurs_at(needle, haystack, at);
        let before = haystack.take(at);
        let after = haystack.skip(at + needle.len());
        assert(haystack =~= before + needle + after) by {
            assert(haystack.subrange(at, at + needle.len()) == needle);
            assert forall|k: int| 0 <= k < needle.len() implies haystack[at + k]
                == #[trigger] needle[k] by {
                assert(haystack.subrange(at, at + needle.len())[k] == haystack[at + k]);
            }
        }
    }
    assert forall|before: Seq<char>, after: Seq<char>|
        haystack == #[trigger] (before + needle + after) implies occurs_in(needle, haystack) by {
        let at = before.len() as int;
        assert(haystack.subrange(at, at + needle.len()) =~= needle);
        assert(occurs_at(needle, haystack, at));
    }
}

/// Decimal digits give the number back: each is worth ten times what follows it, there is at least
/// one, and none but the last is a leading zero.
pub proof fn lemma_decimal_gives_number(n: nat)
    ensures
        decimal(n).len() > 0,
        forall|k: int| 0 <= k < decimal(n).len() ==> '0' <= #[trigger] decimal(n)[k] <= '9',
        decimal(n).fold_left(0, |value: int, c: char| 10 * value + (c as int - '0' as int)) == n,
        decimal(n).len() > 1 ==> decimal(n)[0] != '0',
    decreases n,
{
    let worth = |value: int, c: char| 10 * value + (c as int - '0' as int);
    if n >= 10 {
        lemma_decimal_gives_number(n / 10);
        assert(decimal(n).drop_last() =~= decimal(n / 10));
        assert(decimal(n)[0] == decimal(n / 10)[0]);
        assert(decimal(n / 10).fold_left(0, worth) == n / 10);
        if n / 10 < 10 {
            assert(decimal(n / 10) =~= seq![digit((n / 10) as int)]);
            assert(digit((n / 10) as int) as int == n / 10 + '0' as int);
        } else {
            lemma_decimal_is_printable(n / 10 / 10, 0);
        }
    } else {
        assert(decimal(n).drop_last() =~= Seq::<char>::empty());
        assert(decimal(n).drop_last().fold_left(0, worth) == 0);
    }
}

/// Text at the right edge of a field ends the field and has only spaces before it. Text that is
/// longer than the field is all there is.
pub proof fn lemma_right_edge(text: Seq<char>, width: nat)
    ensures
        ({
            let field = right_aligned(text, width);
            &&& text.len() <= width ==> field.len() == width
            &&& text.len() > width ==> field.len() == text.len()
            &&& field.skip(field.len() - text.len()) == text
            &&& forall|k: int| 0 <= k < field.len() - text.len() ==> #[trigger] field[k] == ' '
        }),
{
    let field = right_aligned(text, width);
    assert(field.skip(field.len() - text.len()) =~= text);
}

/// The text is the one character `c`.
pub(crate) fn is_char(text: &str, c: char) -> (same: bool)
    ensures
        same == (text@ == seq![c]),
{
    let same = text.unicode_len() == 1 && text.get_char(0) == c;
    assert(text@.len() == 1 ==> text@ == seq![text@[0]]);
    same
}

/// A string of `count` spaces.
pub(crate) fn spaces(count: usize) -> (text: String)
    ensures
        text@ == blanks(count as nat),
{
    let mut text = String::new();
    let mut i: usize = 0;
    while i < count
        invariant
            i <= count,
            text@ == blanks(i as nat),
        decreases count - i,
    {
        proof {
            reveal_strlit(" ");
        }
        text.append(" ");
        i = i + 1;
    }
    text
}

fn digit_str(d: u64) -> (text: &'static str)
    requires
        d < 10,
    ensures
        text@ == seq![digit(d as int)],
{
    proof {
        reveal_strlit("0");
        reveal_strlit("1");
        reveal_strlit("2");
        reveal_strlit("3");
        reveal_strlit("4");
        reveal_strlit("5");
        reveal_strlit("6");
        reveal_strlit("7");
        reveal_strlit("8");
        reveal_strlit("9");
    }
    let text = match d {
        0 => "0",
        1 => "1",
        2 => "2",
        3 => "3",
        4 => "4",
        5 => "5",
        6 => "6",
        7 => "7",
        8 => "8",
        _ => "9",
    };
    text
}

/// `n` in decimal.
pub(crate) fn to_decimal(n: u64) -> (text: String)
    ensures
        text@ == decimal(n as nat),
    decreases n,
{
    if n < 10 {
        digit_str(n).to_owned()
    } else {
        let mut text = to_decimal(n / 10);
        text.append(digit_str(n % 10));
        text
    }
}

/// `text` at the right edge of a field of `width` columns.
pub(crate) fn align_right(text: &str, width: usize) -> (aligned: String)
    ensures
        aligned@ == right_aligned(text@, width as nat),
{
    let len = text.unicode_len();
    if len < width {
        let mut aligned = spaces(width - len);
        aligned.append(text);
        aligned
    } else {
        text.to_owned()
    }
}

/// Decimal numbers and spaces are written in printable ASCII.
pub proof fn lemma_decimal_is_printable(n: nat, width: nat)
    ensures
        decimal(n).len() > 0,
        crate::surface::is_printable_ascii(decimal(n)),
        crate::surface::is_printable_ascii(right_aligned(decimal(n), width)),
    decreases n,
{
    if n >= 10 {
        lemma_decimal_is_printable(n / 10, width);
    }
}

} // verus!
