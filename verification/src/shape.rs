//! Shape texts: a shape is an ordered list of non-negative integers, written
//! by the user as a parenthesised, comma-separated string such as `(2,3)`.
//! `()` denotes the empty shape (a scalar).

use vstd::prelude::*;

verus! {

/// A character is a decimal digit.
pub open spec fn is_digit(c: char) -> bool {
    48 <= c as int && c as int <= 57
}

/// Numeric value of a decimal digit character.
pub open spec fn digit_val(c: char) -> nat {
    (c as int - 48) as nat
}

/// Value of a sequence of decimal digit characters, most significant first.
pub open spec fn digits_val(s: Seq<char>) -> nat
    decreases s.len(),
{
    if s.len() == 0 {
        0
    } else {
        digits_val(s.drop_last()) * 10 + digit_val(s.last())
    }
}

/// The digit part of an integer field: one leading `+` sign, if present,
/// is dropped, as the standard integer parser accepts it.
pub open spec fn field_digits(f: Seq<char>) -> Seq<char> {
    if f.len() > 0 && f[0] == '+' {
        f.drop_first()
    } else {
        f
    }
}

/// A field parses as a non-negative integer that fits the platform's
/// size type: optional `+`, then at least one digit, no other characters.
pub open spec fn valid_field(f: Seq<char>) -> bool {
    let d = field_digits(f);
    &&& d.len() > 0
    &&& forall|i: int| 0 <= i < d.len() ==> is_digit(#[trigger] d[i])
    &&& digits_val(d) <= usize::MAX
}

/// The parsed value of a valid field.
pub open spec fn field_val(f: Seq<char>) -> usize {
    digits_val(field_digits(f)) as usize
}

/// Index of the first comma in `s`, or `s.len()` if there is none.
pub open spec fn first_comma(s: Seq<char>) -> nat
    decreases s.len(),
{
    if s.len() == 0 {
        0
    } else if s[0] == ',' {
        0
    } else {
        1 + first_comma(s.drop_first())
    }
}

/// Splitting `s` on commas. Splitting never yields an empty list: a string
/// without commas is one field, and each comma separates two fields.
pub open spec fn split_commas(s: Seq<char>) -> Seq<Seq<char>>
    decreases s.len(),
{
    let j = first_comma(s);
    if j >= s.len() {
        seq![s]
    } else {
        seq![s.take(j as int)] + split_commas(s.skip(j as int + 1))
    }
}

/// What parsing a shape text means. The text must be wrapped in a matched
/// pair of parentheses; an empty interior is the empty shape; otherwise the
/// interior is split on commas and every field must parse as a non-negative
/// integer, or the whole text is invalid.
pub open spec fn parse_shape_spec(s: Seq<char>) -> Option<Seq<usize>> {
    if s.len() < 2 || s[0] != '(' || s[s.len() - 1] != ')' {
        None
    } else {
        let inner = s.subrange(1, s.len() - 1);
        if inner.len() == 0 {
            Some(Seq::empty())
        } else if forall|k: int|
            0 <= k < split_commas(inner).len() ==> valid_field(#[trigger] split_commas(inner)[k]) {
            Some(Seq::new(split_commas(inner).len(), |k: int| field_val(split_commas(inner)[k])))
        } else {
            None
        }
    }
}

/// The first comma is characterised by its position: if nothing before `j`
/// is a comma and `s[j]` is one (or `j` is the length and no character is
/// a comma), then `j` is `first_comma(s)`.
proof fn lemma_first_comma_is(s: Seq<char>, j: int)
    requires
        0 <= j <= s.len(),
        forall|k: int| 0 <= k < j ==> s[k] != ',',
        j < s.len() ==> s[j] == ',',
    ensures
        first_comma(s) == j,
    decreases s.len(),
{
    if s.len() == 0 {
    } else if s[0] == ',' {
    } else {
        lemma_first_comma_is(s.drop_first(), j - 1);
    }
}

/// The value of a digit string never shrinks when more characters follow.
proof fn lemma_digits_val_prefix_le(s: Seq<char>, k: int)
    requires
        0 <= k <= s.len(),
    ensures
        digits_val(s.take(k)) <= digits_val(s),
    decreases s.len(),
{
    if k < s.len() {
        assert(s.drop_last().take(k) =~= s.take(k));
        lemma_digits_val_prefix_le(s.drop_last(), k);
    } else {
        assert(s.take(k) =~= s);
    }
}

/// Collect the characters of a string slice into a vector.
fn chars_of(text: &str) -> (r: Vec<char>)
    ensures
        r@ == text@,
{
    let n = text.unicode_len();
    let mut r: Vec<char> = Vec::new();
    let mut i: usize = 0;
    while i < n
        invariant
            i <= n,
            n == text@.len(),
            r@ == text@.take(i as int),
        decreases n - i,
    {
        let c = text.get_char(i);
        r.push(c);
        i = i + 1;
        proof {
            assert(text@.take(i as int) =~= text@.take(i - 1) + seq![text@[i - 1]]);
        }
    }
    proof {
        assert(text@.take(n as int) =~= text@);
    }
    r
}

/// Parse the characters `cs[start..end)` as one integer field.
fn parse_field_chars(cs: &Vec<char>, start: usize, end: usize) -> (r: Option<usize>)
    requires
        start <= end <= cs@.len(),
    ensures
        r is Some <==> valid_field(cs@.subrange(start as int, end as int)),
        r matches Some(v) ==> v == field_val(cs@.subrange(start as int, end as int)),
{
    let ghost f = cs@.subrange(start as int, end as int);
    let mut i = start;
    if i < end && cs[i] == '+' {
        i = i + 1;
    }
    let ghost d = field_digits(f);
    proof {
        assert(d =~= cs@.subrange(i as int, end as int));
    }
    if i == end {
        return None;
    }
    let mut acc: usize = 0;
    let mut j = i;
    while j < end
        invariant
            start <= i <= j <= end <= cs@.len(),
            f == cs@.subrange(start as int, end as int),
            d == field_digits(f),
            d == cs@.subrange(i as int, end as int),
            acc == digits_val(d.take(j - i)),
            forall|k: int| 0 <= k < j - i ==> is_digit(#[trigger] d[k]),
        decreases end - j,
    {
        let c = cs[j];
        let dv: usize = match c {
            '0' => 0,
            '1' => 1,
            '2' => 2,
            '3' => 3,
            '4' => 4,
            '5' => 5,
            '6' => 6,
            '7' => 7,
            '8' => 8,
            '9' => 9,
            _ => {
                proof {
                    assert(d[j - i] == c);
                    assert(!is_digit(d[j - i]));
                }
                return None;
            },
        };
        proof {
            assert(d[j - i] == c);
            assert(is_digit(c));
            assert(digit_val(c) == dv);
            assert(d.take(j - i + 1).drop_last() =~= d.take(j - i));
            assert(d.take(j - i + 1).last() == c);
        }
        if acc > usize::MAX / 10 || (acc == usize::MAX / 10 && dv > usize::MAX % 10) {
            proof {
                assert(digits_val(d.take(j - i + 1)) == acc * 10 + dv);
                assert(digits_val(d.take(j - i + 1)) > usize::MAX);
                lemma_digits_val_prefix_le(d, j - i + 1);
                assert(digits_val(d) > usize::MAX);
            }
            return None;
        }
        acc = acc * 10 + dv;
        j = j + 1;
    }
    proof {
        assert(d.take(end - i) =~= d);
    }
    Some(acc)
}

/// Parse a user-typed shape text. The text must be wrapped in parentheses;
/// `()` is the empty (scalar) shape; otherwise the interior is split on
/// commas and every field must be a non-negative integer. A malformed text
/// yields `None`; a partial shape is never returned.
pub fn parse_shape(text: &str) -> (r: Option<Vec<usize>>)
    ensures
        r is Some <==> parse_shape_spec(text@) is Some,
        r matches Some(v) ==> parse_shape_spec(text@) == Some(v@),
{
    let cs = chars_of(text);
    let n = cs.len();
    if n < 2 {
        return None;
    }
    if cs[0] != '(' {
        return None;
    }
    if cs[n - 1] != ')' {
        return None;
    }
    let ghost inner = text@.subrange(1, n as int - 1);
    if n == 2 {
        let r: Vec<usize> = Vec::new();
        proof {
            assert(r@ =~= Seq::<usize>::empty());
        }
        return Some(r);
    }
    let mut dims: Vec<usize> = Vec::new();
    let mut start: usize = 1;
    let ghost mut done: Seq<Seq<char>> = Seq::empty();
    proof {
        assert(inner.skip(0) =~= inner);
        assert(done + split_commas(inner) =~= split_commas(inner));
    }
    loop
        invariant_except_break
            n == cs@.len(),
            cs@ == text@,
            2 < n,
            cs@[0] == '(',
            cs@[n - 1] == ')',
            inner == text@.subrange(1, n as int - 1),
            1 <= start <= n - 1,
            split_commas(inner) == done + split_commas(inner.skip(start - 1)),
            done.len() == dims@.len(),
            forall|k: int|
                0 <= k < done.len() ==> valid_field(#[trigger] done[k]) && dims@[k] == field_val(
                    done[k],
                ),
        ensures
            split_commas(inner) == done,
            done.len() == dims@.len(),
            forall|k: int|
                0 <= k < done.len() ==> valid_field(#[trigger] done[k]) && dims@[k] == field_val(
                    done[k],
                ),
        decreases n - start,
    {
        let mut j = start;
        while j < n - 1 && cs[j] != ','
            invariant
                start <= j <= n - 1,
                n == cs@.len(),
                2 < n,
                forall|k: int| start <= k < j ==> cs@[k] != ',',
            decreases n - j,
        {
            j = j + 1;
        }
        let ghost rest = inner.skip(start - 1);
        let ghost field = cs@.subrange(start as int, j as int);
        proof {
            assert(rest.len() == n - 1 - start);
            assert forall|k: int| 0 <= k < j - start implies rest[k] != ',' by {
                assert(rest[k] == cs@[start + k]);
            }
            if j < n - 1 {
                assert(rest[j - start] == cs@[j as int]);
            }
            lemma_first_comma_is(rest, j - start);
            assert(field =~= rest.take(j - start));
            if j < n - 1 {
                assert(split_commas(rest) == seq![rest.take(j - start)] + split_commas(
                    rest.skip(j - start + 1),
                ));
            } else {
                assert(split_commas(rest) == seq![rest]);
                assert(field =~= rest);
            }
            assert(split_commas(rest)[0] == field);
            assert(split_commas(inner)[done.len() as int] == field);
        }
        let fv = parse_field_chars(&cs, start, j);
        match fv {
            None => {
                proof {
                    assert(!valid_field(field));
                    assert(inner.len() > 0);
                    assert(!(forall|k: int|
                        0 <= k < split_commas(inner).len() ==> valid_field(
                            #[trigger] split_commas(inner)[k],
                        )));
                }
                return None;
            },
            Some(v) => {
                dims.push(v);
                proof {
                    done = done.push(field);
                }
                if j >= n - 1 {
                    proof {
                        assert(split_commas(inner) =~= done);
                    }
                    break ;
                }
                proof {
                    assert(inner.skip(j as int) =~= rest.skip(j - start + 1));
                    assert(split_commas(inner) =~= done + split_commas(inner.skip(j as int)));
                }
                start = j + 1;
            },
        }
    }
    proof {
        let split = split_commas(inner);
        assert forall|k: int| 0 <= k < split.len() implies valid_field(#[trigger] split[k]) by {
            assert(valid_field(done[k]));
        }
        let result = Seq::new(split.len(), |k: int| field_val(split[k]));
        assert(result =~= dims@);
    }
    Some(dims)
}

/// The digit character for a value below ten.
pub open spec fn digit_char(d: nat) -> char {
    if d == 0 {
        '0'
    } else if d == 1 {
        '1'
    } else if d == 2 {
        '2'
    } else if d == 3 {
        '3'
    } else if d == 4 {
        '4'
    } else if d == 5 {
        '5'
    } else if d == 6 {
        '6'
    } else if d == 7 {
        '7'
    } else if d == 8 {
        '8'
    } else {
        '9'
    }
}

/// The decimal digit string of a number, without sign or padding.
pub open spec fn dec_str(n: nat) -> Seq<char>
    decreases n,
{
    if n < 10 {
        seq![digit_char(n)]
    } else {
        dec_str(n / 10) + seq![digit_char(n % 10)]
    }
}

/// The dimensions of a shape written out in decimal and joined by a
/// separator.
pub open spec fn join_dims(dims: Seq<usize>, sep: Seq<char>) -> Seq<char>
    decreases dims.len(),
{
    if dims.len() == 0 {
        Seq::empty()
    } else if dims.len() == 1 {
        dec_str(dims[0] as nat)
    } else {
        dec_str(dims[0] as nat) + sep + join_dims(dims.drop_first(), sep)
    }
}

/// The canonical text of a shape: dimensions joined by commas, wrapped in
/// parentheses.
pub open spec fn render_shape_spec(dims: Seq<usize>) -> Seq<char> {
    seq!['('] + join_dims(dims, seq![',']) + seq![')']
}

/// A decimal string is non-empty and made of digits.
pub proof fn lemma_dec_str_digits(n: nat)
    ensures
        dec_str(n).len() >= 1,
        forall|k: int| 0 <= k < dec_str(n).len() ==> is_digit(#[trigger] dec_str(n)[k]),
    decreases n,
{
    if n >= 10 {
        lemma_dec_str_digits(n / 10);
    }
}

/// Reading the decimal digit string of a number back gives the number.
pub proof fn lemma_dec_str_val(n: nat)
    ensures
        digits_val(dec_str(n)) == n,
    decreases n,
{
    if n < 10 {
        let c = digit_char(n);
        assert(dec_str(n) == seq![c]);
        assert(seq![c].drop_last() =~= Seq::<char>::empty());
        assert(seq![c].last() == c);
        assert(digits_val(seq![c]) == digits_val(Seq::<char>::empty()) * 10 + digit_val(c));
        assert(digit_val(c) == n);
    } else {
        lemma_dec_str_val(n / 10);
        let a = dec_str(n / 10);
        let c = digit_char(n % 10);
        assert((a + seq![c]).drop_last() =~= a);
        assert((a + seq![c]).last() == c);
        assert(digits_val(a + seq![c]) == digits_val(a) * 10 + digit_val(c));
    }
}

/// Joining after appending one dimension appends its digits (and a
/// separator when something precedes it).
proof fn lemma_join_push(s: Seq<usize>, x: usize, sep: Seq<char>)
    ensures
        s.len() == 0 ==> join_dims(s.push(x), sep) == dec_str(x as nat),
        s.len() > 0 ==> join_dims(s.push(x), sep) =~= join_dims(s, sep) + sep + dec_str(x as nat),
    decreases s.len(),
{
    if s.len() == 0 {
        assert(s.push(x).len() == 1);
        assert(s.push(x)[0] == x);
    } else {
        assert(s.push(x).drop_first() =~= s.drop_first().push(x));
        lemma_join_push(s.drop_first(), x, sep);
        if s.len() == 1 {
            assert(join_dims(s.push(x), sep) =~= join_dims(s, sep) + sep + dec_str(x as nat));
        } else {
            assert(join_dims(s.push(x), sep) =~= join_dims(s, sep) + sep + dec_str(x as nat));
        }
    }
}

/// A digit string for one of the ten digits.
fn digit_str(d: usize) -> (r: &'static str)
    requires
        d < 10,
    ensures
        r@ == seq![digit_char(d as nat)],
{
    let r: &'static str = match d {
        0 => "0",
        1 => "1",
        2 => "2",
        3 => "3",
        4 => "4",
        5 => "5",
        6 => "6",
        7 => "7",
        8 => "8",
        _ => "9",
    };
    proof {
        reveal_strlit("0");
        reveal_strlit("1");
        reveal_strlit("2");
        reveal_strlit("3");
        reveal_strlit("4");
        reveal_strlit("5");
        reveal_strlit("6");
        reveal_strlit("7");
        reveal_strlit("8");
        reveal_strlit("9");
        assert(r@ =~= seq![digit_char(d as nat)]);
    }
    r
}

/// Write a number in decimal.
pub fn usize_to_string(n: usize) -> (r: String)
    ensures
        r@ == dec_str(n as nat),
    decreases n,
{
    if n < 10 {
        let s = digit_str(n);
        String::from_str(s)
    } else {
        let mut s = usize_to_string(n / 10);
        let d = digit_str(n % 10);
        s.append(d);
        s
    }
}

/// Write the dimensions of a shape in decimal, joined by the separator.
pub fn render_joined(dims: &Vec<usize>, sep: &str) -> (r: String)
    ensures
        r@ == join_dims(dims@, sep@),
{
    let mut s = String::new();
    let mut i: usize = 0;
    while i < dims.len()
        invariant
            i <= dims@.len(),
            s@ == join_dims(dims@.take(i as int), sep@),
        decreases dims@.len() - i,
    {
        if i > 0 {
            s.append(sep);
        }
        let t = usize_to_string(dims[i]);
        s.append(t.as_str());
        proof {
            lemma_join_push(dims@.take(i as int), dims@[i as int], sep@);
            assert(dims@.take(i + 1) =~= dims@.take(i as int).push(dims@[i as int]));
        }
        i = i + 1;
    }
    proof {
        assert(dims@.take(dims@.len() as int) =~= dims@);
    }
    s
}

/// Write a shape as its canonical text, `(d1,d2,...,dn)`.
pub fn render_shape(dims: &Vec<usize>) -> (r: String)
    ensures
        r@ == render_shape_spec(dims@),
{
    proof {
        reveal_strlit("(");
        reveal_strlit(")");
        reveal_strlit(",");
        assert(","@ =~= seq![',']);
    }
    let mut s = String::from_str("(");
    let j = render_joined(dims, ",");
    s.append(j.as_str());
    s.append(")");
    proof {
        assert(s@ =~= render_shape_spec(dims@));
    }
    s
}

/// Splitting a comma-joined list of digit strings recovers the digit
/// strings.
proof fn lemma_split_join(dims: Seq<usize>)
    requires
        dims.len() > 0,
    ensures
        split_commas(join_dims(dims, seq![','])) =~= Seq::new(
            dims.len(),
            |k: int| dec_str(dims[k] as nat),
        ),
    decreases dims.len(),
{
    let sep = seq![','];
    let j = join_dims(dims, sep);
    let d0 = dec_str(dims[0] as nat);
    lemma_dec_str_digits(dims[0] as nat);
    if dims.len() == 1 {
        assert forall|k: int| 0 <= k < j.len() implies j[k] != ',' by {
            assert(is_digit(j[k]));
        }
        lemma_first_comma_is(j, j.len() as int);
        assert(split_commas(j) == seq![j]);
        assert(split_commas(j) =~= Seq::new(dims.len(), |k: int| dec_str(dims[k] as nat)));
    } else {
        let rest = join_dims(dims.drop_first(), sep);
        let m = d0.len() as int;
        assert(j == d0 + sep + rest);
        assert forall|k: int| 0 <= k < m implies j[k] != ',' by {
            assert(j[k] == d0[k]);
            assert(is_digit(d0[k]));
        }
        assert(j[m] == ',');
        lemma_first_comma_is(j, m);
        assert(split_commas(j) == seq![j.take(m)] + split_commas(j.skip(m + 1)));
        assert(j.take(m) =~= d0);
        assert(j.skip(m + 1) =~= rest);
        lemma_split_join(dims.drop_first());
        assert(split_commas(j) =~= Seq::new(dims.len(), |k: int| dec_str(dims[k] as nat)));
    }
}

/// Round trip: parsing the canonical text of any shape gives back exactly
/// that shape. In particular every text of the form `(d1,d2,...,dn)` with
/// decimal dimensions parses to `[d1, ..., dn]`, and `()` parses to the
/// empty shape.
pub proof fn lemma_parse_render_round_trip(dims: Seq<usize>)
    ensures
        parse_shape_spec(render_shape_spec(dims)) == Some(dims),
{
    let r = render_shape_spec(dims);
    let j = join_dims(dims, seq![',']);
    assert(r.len() == j.len() + 2);
    assert(r[0] == '(');
    assert(r[r.len() - 1] == ')');
    let inner = r.subrange(1, r.len() - 1);
    assert(inner =~= j);
    if dims.len() == 0 {
        assert(parse_shape_spec(r) == Some(Seq::<usize>::empty()));
        assert(Seq::<usize>::empty() =~= dims);
    } else {
        lemma_split_join(dims);
        let split = split_commas(inner);
        assert(split.len() == dims.len());
        assert forall|k: int| 0 <= k < split.len() implies valid_field(#[trigger] split[k]) by {
            assert(split[k] == dec_str(dims[k] as nat));
            lemma_dec_str_digits(dims[k] as nat);
            lemma_dec_str_val(dims[k] as nat);
            assert(is_digit(dec_str(dims[k] as nat)[0]));
            assert(field_digits(dec_str(dims[k] as nat)) == dec_str(dims[k] as nat));
        }
        assert(inner.len() > 0) by {
            lemma_dec_str_digits(dims[0] as nat);
        }
        assert forall|k: int| 0 <= k < split.len() implies field_val(#[trigger] split[k])
            == dims[k] by {
            lemma_dec_str_val(dims[k] as nat);
            lemma_dec_str_digits(dims[k] as nat);
            assert(is_digit(dec_str(dims[k] as nat)[0]));
            assert(field_digits(dec_str(dims[k] as nat)) == dec_str(dims[k] as nat));
        }
        assert(Seq::new(split.len(), |k: int| field_val(split[k])) =~= dims);
    }
}

/// A text that does not start with `(` or does not end with `)` never
/// parses.
pub proof fn lemma_parse_rejects_delimiters(s: Seq<char>)
    requires
        s.len() == 0 || s[0] != '(' || s[s.len() - 1] != ')',
    ensures
        parse_shape_spec(s) is None,
{
}

/// A delimited text with a non-empty interior containing an invalid field
/// never parses.
pub proof fn lemma_parse_rejects_bad_field(s: Seq<char>, k: int)
    requires
        s.len() > 2,
        s[0] == '(',
        s[s.len() - 1] == ')',
        0 <= k < split_commas(s.subrange(1, s.len() - 1)).len(),
        !valid_field(split_commas(s.subrange(1, s.len() - 1))[k]),
    ensures
        parse_shape_spec(s) is None,
{
    assert(s.subrange(1, s.len() - 1).len() > 0);
}

} // verus!
