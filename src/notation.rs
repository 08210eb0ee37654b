//! The mathematical model of dotted-decimal notation.
use vstd::prelude::*;

verus! {

/// The octet separator.
pub open spec fn is_separator(c: char) -> bool {
    c == '.'
}

/// An ASCII decimal digit.
pub open spec fn is_digit(c: char) -> bool {
    '0' <= c && c <= '9'
}

/// The numeric value of a decimal digit.
pub open spec fn digit_value(c: char) -> nat {
    (c as int - '0' as int) as nat
}

/// The value of a string of decimal digits, most significant digit first.
pub open spec fn digits_value(s: Seq<char>) -> nat
    decreases s.len(),
{
    if s.len() == 0 {
        0
    } else {
        digits_value(s.drop_last()) * 10 + digit_value(s.last())
    }
}

/// One to three decimal digits whose value is at most 255. Leading zeros are allowed.
pub open spec fn is_octet(s: Seq<char>) -> bool {
    &&& 1 <= s.len() <= 3
    &&& forall|i: int| 0 <= i < s.len() ==> is_digit(#[trigger] s[i])
    &&& digits_value(s) <= 255
}

/// One or two digits are worth at most 99.
pub proof fn lemma_short_digits_value(s: Seq<char>)
    requires
        s.len() <= 2,
        forall|i: int| 0 <= i < s.len() ==> is_digit(#[trigger] s[i]),
    ensures
        digits_value(s) <= 99,
{
    if s.len() > 0 {
        let t = s.drop_last();
        if t.len() > 0 {
            assert(t.drop_last() =~= Seq::<char>::empty());
            assert(digits_value(t.drop_last()) == 0);
            assert(is_digit(t[0]));
            assert(digit_value(t[0]) <= 9);
            assert(digits_value(t) == digit_value(t[0]));
        } else {
            assert(digits_value(t) == 0);
        }
        assert(is_digit(s.last()));
        assert(digit_value(s.last()) <= 9);
        assert(digits_value(s) == digits_value(t) * 10 + digit_value(s.last()));
    }
}

/// The fields of `s` between separators, empty ones included:
/// `"1..2"` has the fields `"1"`, `""` and `"2"`, and `""` has one empty field.
pub open spec fn fields(s: Seq<char>) -> Seq<Seq<char>>
    decreases s.len(),
{
    if s.len() == 0 {
        seq![Seq::empty()]
    } else {
        next_fields(fields(s.drop_last()), s.last())
    }
}

/// The fields after one more character: a separator opens an empty field,
/// any other character extends the last one.
pub open spec fn next_fields(f: Seq<Seq<char>>, c: char) -> Seq<Seq<char>> {
    if is_separator(c) {
        f.push(Seq::empty())
    } else {
        f.update(f.len() - 1, f.last().push(c))
    }
}

/// `s` is an IPv4 address in dotted-decimal notation: exactly four octets joined by separators.
pub open spec fn is_ipv4(s: Seq<char>) -> bool {
    let f = fields(s);
    &&& f.len() == 4
    &&& forall|i: int| 0 <= i < 4 ==> is_octet(#[trigger] f[i])
}

/// A string always has at least one field.
pub proof fn lemma_fields_nonempty(s: Seq<char>)
    ensures
        fields(s).len() >= 1,
    decreases s.len(),
{
    if s.len() > 0 {
        lemma_fields_nonempty(s.drop_last());
    }
}

/// Fields that no continuation of the string can turn into an address: too many fields,
/// a closed field that is not an octet, or an open last field that is too long or holds
/// a non-digit.
pub open spec fn is_doomed(f: Seq<Seq<char>>) -> bool {
    ||| f.len() > 4
    ||| exists|j: int| 0 <= j < f.len() - 1 && !is_octet(#[trigger] f[j])
    ||| f.last().len() > 3
    ||| exists|k: int| 0 <= k < f.last().len() && !is_digit(#[trigger] f.last()[k])
}

/// The total number of characters held in the fields.
pub open spec fn fields_len(f: Seq<Seq<char>>) -> int
    decreases f.len(),
{
    if f.len() == 0 {
        0
    } else {
        fields_len(f.drop_last()) + f.last().len()
    }
}

/// The fields of a prefix one character longer.
pub proof fn lemma_fields_take_next(s: Seq<char>, i: int)
    requires
        0 <= i < s.len(),
    ensures
        fields(s.take(i + 1)) == next_fields(fields(s.take(i)), s[i]),
{
    assert(s.take(i + 1).drop_last() =~= s.take(i));
}

/// Once doomed, fields stay doomed whatever character comes next.
pub proof fn lemma_doomed_next(f: Seq<Seq<char>>, c: char)
    requires
        f.len() >= 1,
        is_doomed(f),
    ensures
        is_doomed(next_fields(f, c)),
{
    let g = next_fields(f, c);
    let n = f.len() - 1;
    if f.len() > 4 {
    } else if exists|j: int| 0 <= j < f.len() - 1 && !is_octet(#[trigger] f[j]) {
        let j = choose|j: int| 0 <= j < f.len() - 1 && !is_octet(#[trigger] f[j]);
        assert(g[j] == f[j]);
    } else if is_separator(c) {
        assert(g[n] == f.last());
        if f.last().len() <= 3 {
            let k = choose|k: int| 0 <= k < f.last().len() && !is_digit(#[trigger] f.last()[k]);
            assert(!is_digit(g[n][k]));
        }
        assert(!is_octet(g[n]));
    } else if f.last().len() <= 3 {
        let k = choose|k: int| 0 <= k < f.last().len() && !is_digit(#[trigger] f.last()[k]);
        assert(g.last()[k] == f.last()[k]);
    }
}

/// A prefix with doomed fields dooms the whole string.
pub proof fn lemma_doomed_prefix(s: Seq<char>, i: int)
    requires
        0 <= i <= s.len(),
        is_doomed(fields(s.take(i))),
    ensures
        is_doomed(fields(s)),
    decreases s.len() - i,
{
    if i == s.len() {
        assert(s.take(i) =~= s);
    } else {
        lemma_fields_take_next(s, i);
        lemma_fields_nonempty(s.take(i));
        lemma_doomed_next(fields(s.take(i)), s[i]);
        lemma_doomed_prefix(s, i + 1);
    }
}

/// A string whose fields are doomed is not an address.
pub proof fn lemma_doomed_not_ipv4(s: Seq<char>)
    requires
        is_doomed(fields(s)),
    ensures
        !is_ipv4(s),
{
    let f = fields(s);
    if f.len() == 4 {
        if exists|j: int| 0 <= j < f.len() - 1 && !is_octet(#[trigger] f[j]) {
            let j = choose|j: int| 0 <= j < f.len() - 1 && !is_octet(#[trigger] f[j]);
            assert(!is_octet(f[j]));
        } else if f.last().len() > 3 {
            assert(!is_octet(f[3]));
        } else {
            let k = choose|k: int| 0 <= k < f.last().len() && !is_digit(#[trigger] f.last()[k]);
            assert(!is_digit(f[3][k]));
            assert(!is_octet(f[3]));
        }
    }
}

/// The characters of a string are those of its fields and one separator between each two.
pub proof fn lemma_fields_len(s: Seq<char>)
    ensures
        fields_len(fields(s)) + fields(s).len() - 1 == s.len(),
    decreases s.len(),
{
    if s.len() == 0 {
        assert(fields(s).drop_last() =~= Seq::<Seq<char>>::empty());
        assert(fields_len(fields(s).drop_last()) == 0);
    } else {
        let f = fields(s.drop_last());
        lemma_fields_len(s.drop_last());
        lemma_fields_nonempty(s.drop_last());
        let g = fields(s);
        if is_separator(s.last()) {
            assert(g.drop_last() =~= f);
            assert(fields_len(g) == fields_len(f));
        } else {
            assert(g.drop_last() =~= f.drop_last());
            assert(fields_len(f) == fields_len(f.drop_last()) + f.last().len());
        }
    }
}

/// Every character of an address is a digit or a separator.
pub proof fn lemma_ipv4_chars(s: Seq<char>, i: int)
    requires
        is_ipv4(s),
        0 <= i < s.len(),
    ensures
        is_digit(s[i]) || is_separator(s[i]),
{
    if !is_digit(s[i]) && !is_separator(s[i]) {
        lemma_fields_take_next(s, i);
        lemma_fields_nonempty(s.take(i));
        let g = fields(s.take(i + 1));
        assert(g.last()[g.last().len() - 1] == s[i]);
        lemma_doomed_prefix(s, i + 1);
        lemma_doomed_not_ipv4(s);
    }
}

/// An address is written in ASCII, with seven to fifteen characters.
pub proof fn lemma_ipv4_shape(s: Seq<char>)
    requires
        is_ipv4(s),
    ensures
        7 <= s.len() <= 15,
        vstd::utf8::is_ascii_chars(s),
{
    let f = fields(s);
    lemma_fields_len(s);
    let f3 = f.drop_last();
    let f2 = f3.drop_last();
    let f1 = f2.drop_last();
    assert(f1.drop_last() =~= Seq::<Seq<char>>::empty());
    assert(fields_len(f1.drop_last()) == 0);
    assert(fields_len(f1) == f[0].len());
    assert(fields_len(f2) == fields_len(f1) + f[1].len());
    assert(fields_len(f3) == fields_len(f2) + f[2].len());
    assert(fields_len(f) == fields_len(f3) + f[3].len());
    assert(is_octet(f[0]) && is_octet(f[1]) && is_octet(f[2]) && is_octet(f[3]));
    assert forall|i: int| 0 <= i < s.len() implies '\0' <= #[trigger] s[i] <= '\u{7f}' by {
        lemma_ipv4_chars(s, i);
    }
}

/// The digit character for a value below ten.
pub open spec fn digit_char(d: nat) -> char {
    ('0' as nat + d) as char
}

/// The decimal form of `n`, with no leading zero.
pub open spec fn decimal(n: nat) -> Seq<char>
    decreases n,
{
    if n < 10 {
        seq![digit_char(n)]
    } else {
        decimal(n / 10).push(digit_char(n % 10))
    }
}

/// Four values written in dotted-decimal notation.
pub open spec fn dotted_quad(a: nat, b: nat, c: nat, d: nat) -> Seq<char> {
    decimal(a) + seq!['.'] + decimal(b) + seq!['.'] + decimal(c) + seq!['.'] + decimal(d)
}

/// The decimal form of `n` is made of digits, is worth `n`, and has at most three digits
/// when `n` is below 1000.
pub proof fn lemma_decimal(n: nat)
    ensures
        forall|i: int| 0 <= i < decimal(n).len() ==> is_digit(#[trigger] decimal(n)[i]),
        digits_value(decimal(n)) == n,
        1 <= decimal(n).len(),
        n < 10 ==> decimal(n).len() == 1,
        n < 100 ==> decimal(n).len() <= 2,
        n < 1000 ==> decimal(n).len() <= 3,
    decreases n,
{
    let s = decimal(n);
    if n < 10 {
        assert(s.drop_last() =~= Seq::<char>::empty());
        assert(digits_value(s.drop_last()) == 0);
        assert(digit_value(digit_char(n)) == n);
    } else {
        lemma_decimal(n / 10);
        assert(s.drop_last() =~= decimal(n / 10));
        assert(digit_value(digit_char(n % 10)) == n % 10);
        assert(n == (n / 10) * 10 + n % 10);
    }
}

/// A string without separators is a single field.
pub proof fn lemma_fields_single(t: Seq<char>)
    requires
        forall|i: int| 0 <= i < t.len() ==> !is_separator(#[trigger] t[i]),
    ensures
        fields(t) == seq![t],
    decreases t.len(),
{
    if t.len() == 0 {
        assert(t =~= Seq::<char>::empty());
    } else {
        lemma_fields_single(t.drop_last());
        assert(t.drop_last().push(t.last()) =~= t);
        assert(fields(t) =~= seq![t]);
    }
}

/// A separator followed by a string without separators adds that string as one field.
pub proof fn lemma_fields_append(p: Seq<char>, t: Seq<char>)
    requires
        forall|i: int| 0 <= i < t.len() ==> !is_separator(#[trigger] t[i]),
    ensures
        fields(p + seq!['.'] + t) == fields(p).push(t),
    decreases t.len(),
{
    let s = p + seq!['.'] + t;
    if t.len() == 0 {
        assert(s.drop_last() =~= p);
        assert(t =~= Seq::<char>::empty());
    } else {
        lemma_fields_append(p, t.drop_last());
        assert(s.drop_last() =~= p + seq!['.'] + t.drop_last());
        assert(t.drop_last().push(t.last()) =~= t);
        assert(fields(s) =~= fields(p).push(t));
    }
}

} // verus!
