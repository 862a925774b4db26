//! Text that the ingestion rules produce: decimal numbers, file extensions and
//! progress messages.

use vstd::prelude::*;

verus! {

/// The decimal digit character for `d` (`d < 10`).
pub open spec fn digit_char(d: nat) -> char {
    seq!['0', '1', '2', '3', '4', '5', '6', '7', '8', '9'][d as int]
}

/// The decimal text of `n`, without sign or leading zeros.
pub open spec fn decimal_text(n: nat) -> Seq<char>
    decreases n,
{
    if n < 10 {
        seq![digit_char(n)]
    } else {
        decimal_text(n / 10).push(digit_char(n % 10))
    }
}

fn digit_str(d: u8) -> (r: &'static str)
    requires
        d < 10,
    ensures
        r@ == seq![digit_char(d as nat)],
{
    proof {
        reveal_strlit("0");
        reveal_strlit("1");
        reveal_strlit("2");
        reveal_strlit("3");
        reveal_strlit("4");
        reveal_strlit("5");
        reveal_strlit("6");
        reveal_strlit("7");
        reveal_strlit("8");
        reveal_strlit("9");
    }
    match d {
        0 => "0",
        1 => "1",
        2 => "2",
        3 => "3",
        4 => "4",
        5 => "5",
        6 => "6",
        7 => "7",
        8 => "8",
        _ => "9",
    }
}

/// Appends the decimal text of `n` to `out`.
pub fn push_decimal(out: &mut String, n: u128)
    ensures
        final(out)@ == old(out)@ + decimal_text(n as nat),
    decreases n,
{
    if n < 10 {
        out.append(digit_str(n as u8));
    } else {
        push_decimal(out, n / 10);
        out.append(digit_str((n % 10) as u8));
        assert(decimal_text(n as nat) == decimal_text((n / 10) as nat).push(digit_char((n % 10) as nat)));
    }
}

/// What follows the last `'.'` of a file name; the whole name when it holds no
/// `'.'`.
pub open spec fn extension(name: Seq<char>) -> Seq<char>
    decreases name.len(),
{
    if name.len() == 0 {
        name
    } else if name.last() == '.' {
        Seq::empty()
    } else {
        extension(name.drop_last()).push(name.last())
    }
}

/// Returns the extension of a file name.
pub fn file_extension(name: &str) -> (r: &str)
    ensures
        r@ == extension(name@),
{
    let n = name.unicode_len();
    let mut j: usize = n;
    assert(name@.subrange(0, n as int) == name@);
    assert(name@.subrange(n as int, n as int) == Seq::<char>::empty());
    while j > 0 && name.get_char(j - 1) != '.'
        invariant
            j <= n,
            n == name@.len(),
            extension(name@) == extension(name@.subrange(0, j as int)) + name@.subrange(
                j as int,
                n as int,
            ),
        decreases j,
    {
        let ghost pre = name@.subrange(0, j as int);
        assert(pre.drop_last() == name@.subrange(0, j - 1));
        assert(name@.subrange(j - 1, n as int) == seq![pre.last()] + name@.subrange(
            j as int,
            n as int,
        ));
        j = j - 1;
    }
    if j > 0 {
        assert(name@.subrange(0, j as int).last() == '.');
    } else {
        assert(name@.subrange(0, 0) == Seq::<char>::empty());
    }
    name.substring_char(j, n)
}

/// `num / den` rounded to the nearest integer, a tie going to the even one.
pub open spec fn rounded_ratio(num: nat, den: nat) -> nat
    recommends
        den > 0,
{
    let q = num / den;
    let r = num % den;
    if 2 * r > den || (2 * r == den && q % 2 == 1) {
        q + 1
    } else {
        q
    }
}

/// A count of hundredths written with two decimals: `1234` is `12.34`.
pub open spec fn hundredths_text(h: nat) -> Seq<char> {
    decimal_text(h / 100) + seq!['.', digit_char((h % 100) / 10), digit_char(h % 10)]
}

/// The progress `offset / size * 100` with two decimals; a size of zero counts
/// as complete and a negative size gives a negative figure.
pub open spec fn progress_percent_text(offset: u64, size: i64) -> Seq<char> {
    if size == 0 {
        hundredths_text(10000)
    } else if size > 0 {
        hundredths_text(rounded_ratio((offset * 10000) as nat, size as nat))
    } else {
        seq!['-'] + hundredths_text(rounded_ratio((offset * 10000) as nat, (-size) as nat))
    }
}

/// The status message of an upload that has reached `offset` of `size` bytes.
pub open spec fn progress_message(offset: u64, size: i64) -> Seq<char> {
    "Upload progress: "@ + progress_percent_text(offset, size) + seq!['%']
}

fn push_hundredths(out: &mut String, h: u128)
    ensures
        final(out)@ == old(out)@ + hundredths_text(h as nat),
{
    push_decimal(out, h / 100);
    proof {
        reveal_strlit(".");
    }
    out.append(".");
    out.append(digit_str(((h % 100) / 10) as u8));
    out.append(digit_str((h % 10) as u8));
    assert(final(out)@ =~= old(out)@ + hundredths_text(h as nat));
}

/// Builds the status message of an upload that has reached `offset` of `size`
/// bytes.
pub fn progress_text(offset: u64, size: i64) -> (r: String)
    ensures
        r@ == progress_message(offset, size),
{
    let mut out = String::from_str("Upload progress: ");
    let ghost start = out@;
    if size == 0 {
        push_hundredths(&mut out, 10000);
    } else {
        let num: u128 = offset as u128 * 10000;
        let den: u128 = if size > 0 {
            size as u128
        } else {
            (-(size as i128)) as u128
        };
        let q = num / den;
        let rem = num % den;
        let h: u128 = if 2 * rem > den || (2 * rem == den && q % 2 == 1) {
            q + 1
        } else {
            q
        };
        if size < 0 {
            proof {
                reveal_strlit("-");
            }
            out.append("-");
        }
        push_hundredths(&mut out, h);
    }
    proof {
        reveal_strlit("%");
    }
    out.append("%");
    assert(out@ =~= progress_message(offset, size));
    out
}

} // verus!
