//! Text helpers: calls into std's `String` and `str` that vstd leaves
//! unspecified, and the splitting of comma-separated lists.

use vstd::prelude::*;

verus! {

broadcast use vstd::string::group_string_axioms;

/// `String::push`: appends one character.
#[verifier::external_body]
pub(crate) fn string_push(s: &mut String, c: char)
    ensures
        final(s)@ == old(s)@.push(c),
{
    s.push(c)
}

/// The characters that Unicode's White_Space property holds, which
/// `char::is_whitespace` accepts.
pub open spec fn is_white_space(c: char) -> bool {
    let u = c as u32;
    ||| 0x9 <= u <= 0xd
    ||| u == 0x20
    ||| u == 0x85
    ||| u == 0xa0
    ||| u == 0x1680
    ||| 0x2000 <= u <= 0x200a
    ||| u == 0x2028
    ||| u == 0x2029
    ||| u == 0x202f
    ||| u == 0x205f
    ||| u == 0x3000
}

/// `s` without its leading white space.
pub open spec fn trim_start(s: Seq<char>) -> Seq<char>
    decreases s.len(),
{
    if s.len() > 0 && is_white_space(s[0]) {
        trim_start(s.drop_first())
    } else {
        s
    }
}

/// `s` without its trailing white space.
pub open spec fn trim_end(s: Seq<char>) -> Seq<char>
    decreases s.len(),
{
    if s.len() > 0 && is_white_space(s.last()) {
        trim_end(s.drop_last())
    } else {
        s
    }
}

/// What `str::trim` leaves of `s`: `s` without its leading and trailing
/// white space.
pub open spec fn trimmed(s: Seq<char>) -> Seq<char> {
    trim_end(trim_start(s))
}

/// `str::trim`, taken as an owned string: the string without its leading
/// and trailing characters of Unicode's White_Space property.
#[verifier::external_body]
pub(crate) fn trim(s: &str) -> (res: String)
    ensures
        res@ == trimmed(s@),
{
    s.trim().to_string()
}

/// The decimal digit character of `d`, for `d` below ten.
pub open spec fn digit_char(d: nat) -> char {
    ((d + 48) as u8) as char
}

/// The decimal digits of `n`, most significant first, with no leading zero.
pub open spec fn decimal_digits(n: nat) -> Seq<char>
    decreases n,
{
    if n < 10 {
        seq![digit_char(n)]
    } else {
        decimal_digits(n / 10).push(digit_char(n % 10))
    }
}

/// How Rust prints an integer in decimal: a minus sign for a negative one,
/// then the digits of its magnitude.
pub open spec fn decimal(n: int) -> Seq<char> {
    if n < 0 {
        seq!['-'] + decimal_digits((-n) as nat)
    } else {
        decimal_digits(n as nat)
    }
}

/// The number that a string of decimal digits spells, most significant
/// digit first.
pub open spec fn digits_value(s: Seq<char>) -> int
    decreases s.len(),
{
    if s.len() == 0 {
        0
    } else {
        digits_value(s.drop_last()) * 10 + (s.last() as int - 48)
    }
}

/// The decimal digits of `n` are all digit characters, with no leading zero
/// unless `n` is zero, and they spell `n`.
pub proof fn lemma_decimal_digits_spell(n: nat)
    ensures
        digits_value(decimal_digits(n)) == n,
        decimal_digits(n).len() >= 1,
        forall|i: int|
            0 <= i < decimal_digits(n).len() ==> '0' <= #[trigger] decimal_digits(n)[i] <= '9',
        n > 0 ==> decimal_digits(n)[0] != '0',
    decreases n,
{
    let d = n % 10;
    assert(digit_char(d) as int == d + 48);
    if n >= 10 {
        lemma_decimal_digits_spell(n / 10);
        let init = decimal_digits(n / 10);
        assert(decimal_digits(n).drop_last() =~= init);
        assert forall|i: int| 0 <= i < decimal_digits(n).len() implies '0' <= #[trigger] decimal_digits(
            n,
        )[i] <= '9' by {
            if i < init.len() {
                assert(decimal_digits(n)[i] == init[i]);
            }
        }
        assert(decimal_digits(n)[0] == init[0]);
        assert(decimal_digits(n).last() == digit_char(d));
        assert(digits_value(decimal_digits(n)) == digits_value(init) * 10 + (digit_char(d) as int
            - 48));
        assert(n == (n / 10) * 10 + n % 10);
    } else {
        assert(decimal_digits(n).drop_last() =~= Seq::<char>::empty());
        assert(decimal_digits(n).last() == digit_char(d));
        assert(digits_value(decimal_digits(n)) == digits_value(Seq::<char>::empty()) * 10 + (
        digit_char(d) as int - 48));
    }
}

/// Appends the decimal digits of `n`.
pub(crate) fn push_decimal_digits(s: &mut String, n: u64)
    ensures
        final(s)@ == old(s)@ + decimal_digits(n as nat),
    decreases n,
{
    if n >= 10 {
        push_decimal_digits(s, n / 10);
    }
    let d: u8 = (n % 10) as u8;
    let c: char = (d + 48u8) as char;
    string_push(s, c);
    proof {
        assert(c == digit_char((n % 10) as nat));
        if n < 10 {
            assert(old(s)@ + decimal_digits(n as nat) =~= old(s)@.push(c));
        } else {
            assert(old(s)@ + decimal_digits(n as nat) =~= (old(s)@ + decimal_digits(
                (n / 10) as nat,
            )).push(c));
        }
    }
}

/// Appends `n` in decimal, as Rust prints it.
pub(crate) fn push_decimal(s: &mut String, n: i64)
    ensures
        final(s)@ == old(s)@ + decimal(n as int),
{
    if n < 0 {
        string_push(s, '-');
        let m: u64 = (-(n as i128)) as u64;
        push_decimal_digits(s, m);
        assert(s@ =~= old(s)@ + decimal(n as int)) by {
            assert(m as nat == (-(n as int)) as nat);
        }
    } else {
        push_decimal_digits(s, n as u64);
    }
}

/// The pieces of `s` between the occurrences of `sep`, in order; a string
/// with no `sep` is one piece, and the empty string is one empty piece.
pub open spec fn split_on(s: Seq<char>, sep: char) -> Seq<Seq<char>>
    decreases s.len(),
{
    if s.len() == 0 {
        seq![Seq::empty()]
    } else {
        let before = split_on(s.drop_last(), sep);
        if s.last() == sep {
            before.push(Seq::empty())
        } else {
            before.update(before.len() - 1, before.last().push(s.last()))
        }
    }
}

/// Splitting always gives at least one piece.
pub proof fn lemma_split_on_nonempty(s: Seq<char>, sep: char)
    ensures
        split_on(s, sep).len() >= 1,
    decreases s.len(),
{
    if s.len() > 0 {
        lemma_split_on_nonempty(s.drop_last(), sep);
    }
}

/// The pieces joined back, with `sep` between each two.
pub open spec fn join_with(ps: Seq<Seq<char>>, sep: char) -> Seq<char>
    decreases ps.len(),
{
    if ps.len() == 0 {
        Seq::empty()
    } else if ps.len() == 1 {
        ps[0]
    } else {
        join_with(ps.drop_last(), sep).push(sep) + ps.last()
    }
}

/// Splitting cuts at every `sep` and nowhere else: no piece holds `sep`,
/// and joining the pieces with `sep` gives the string back.
pub proof fn lemma_split_on_joins_back(s: Seq<char>, sep: char)
    ensures
        join_with(split_on(s, sep), sep) == s,
        forall|i: int|
            0 <= i < split_on(s, sep).len() ==> !(#[trigger] split_on(s, sep)[i]).contains(sep),
    decreases s.len(),
{
    if s.len() == 0 {
        assert(split_on(s, sep)[0] =~= Seq::<char>::empty());
        assert(s =~= Seq::<char>::empty());
    } else {
        let init = s.drop_last();
        let c = s.last();
        let before = split_on(init, sep);
        lemma_split_on_joins_back(init, sep);
        lemma_split_on_nonempty(init, sep);
        let after = split_on(s, sep);
        if c == sep {
            assert(after == before.push(Seq::<char>::empty()));
            assert(after.drop_last() =~= before);
            assert(join_with(after, sep) =~= init.push(sep));
            assert(init.push(sep) =~= s);
            assert forall|i: int| 0 <= i < after.len() implies !(#[trigger] after[i]).contains(sep) by {
                if i < before.len() {
                    assert(after[i] == before[i]);
                } else {
                    assert(after[i] =~= Seq::<char>::empty());
                }
            }
        } else {
            let last = before.last().push(c);
            assert(after == before.update(before.len() - 1, last));
            if before.len() == 1 {
                assert(join_with(after, sep) == last);
                assert(join_with(before, sep) == before[0]);
                assert(last =~= s);
            } else {
                assert(after.drop_last() =~= before.drop_last());
                assert(join_with(after, sep) == join_with(before.drop_last(), sep).push(sep) + last);
                assert(join_with(before, sep) == join_with(before.drop_last(), sep).push(sep)
                    + before.last());
                assert(join_with(before.drop_last(), sep).push(sep) + last =~= init.push(c));
                assert(init.push(c) =~= s);
            }
            assert forall|i: int| 0 <= i < after.len() implies !(#[trigger] after[i]).contains(sep) by {
                if i < before.len() - 1 {
                    assert(after[i] == before[i]);
                } else {
                    assert(after[i] == last);
                    assert(!before[before.len() - 1].contains(sep));
                    if last.contains(sep) {
                        let k = choose|k: int| 0 <= k < last.len() && last[k] == sep;
                        assert(before.last()[k] == sep);
                    }
                }
            }
        }
    }
}

/// The pieces of `s` between the commas.
pub fn split_commas(s: &str) -> (res: Vec<String>)
    ensures
        res@.map_values(|p: String| p@) == split_on(s@, ','),
{
    let mut pieces: Vec<String> = Vec::new();
    let mut current = String::new();
    let ghost chars = s@;
    for c in it: s.chars()
        invariant
            it.seq() == chars,
            split_on(chars.take(it.index()), ',') == pieces@.map_values(|p: String| p@).push(
                current@,
            ),
    {
        proof {
            let pre = chars.take(it.index());
            assert(chars.take(it.index() + 1).drop_last() =~= pre);
            assert(chars.take(it.index() + 1).last() == c);
            lemma_split_on_nonempty(pre, ',');
        }
        if c == ',' {
            let done = current;
            pieces.push(done);
            current = String::new();
            proof {
                assert(pieces@.map_values(|p: String| p@).push(current@) =~= split_on(
                    chars.take(it.index() + 1),
                    ',',
                ));
            }
        } else {
            string_push(&mut current, c);
            proof {
                assert(pieces@.map_values(|p: String| p@).push(current@) =~= split_on(
                    chars.take(it.index() + 1),
                    ',',
                ));
            }
        }
    }
    proof {
        assert(chars.take(chars.len() as int) =~= chars);
    }
    pieces.push(current);
    proof {
        assert(pieces@.map_values(|p: String| p@) =~= split_on(chars, ','));
    }
    pieces
}

} // verus!
