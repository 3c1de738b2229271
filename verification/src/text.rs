//! Small verified helpers over strings and key/value pair lists: substring
//! containment, the trailing-wildcard ARN normalization, and tag lookup.

use vstd::prelude::*;

verus! {

/// True when `needle` occurs as a contiguous run inside `hay`.
pub open spec fn text_contains(hay: Seq<char>, needle: Seq<char>) -> bool {
    exists|i: int| 0 <= i && i + needle.len() <= hay.len() && #[trigger] hay.subrange(i, i + needle.len() as int) == needle
}

/// A sequence contains itself.
pub proof fn lemma_contains_self(s: Seq<char>)
    ensures
        text_contains(s, s),
{
    assert(s.subrange(0, 0 + s.len() as int) =~= s);
}

/// Containment is preserved when text is appended on the right.
pub proof fn lemma_contains_append_right(a: Seq<char>, b: Seq<char>, needle: Seq<char>)
    requires
        text_contains(a, needle),
    ensures
        text_contains(a + b, needle),
{
    let i = choose|i: int| 0 <= i && i + needle.len() <= a.len() && #[trigger] a.subrange(i, i + needle.len() as int) == needle;
    assert((a + b).subrange(i, i + needle.len() as int) =~= a.subrange(i, i + needle.len() as int));
    assert((a + b).subrange(i, i + needle.len() as int) == needle);
}

/// Containment is preserved when text is prepended on the left.
pub proof fn lemma_contains_append_left(a: Seq<char>, b: Seq<char>, needle: Seq<char>)
    requires
        text_contains(b, needle),
    ensures
        text_contains(a + b, needle),
{
    let i = choose|i: int| 0 <= i && i + needle.len() <= b.len() && #[trigger] b.subrange(i, i + needle.len() as int) == needle;
    let j = a.len() + i;
    assert((a + b).subrange(j, j + needle.len() as int) =~= b.subrange(i, i + needle.len() as int));
    assert((a + b).subrange(j, j + needle.len() as int) == needle);
}

/// The ARN with a trailing `:*` wildcard suffix removed, if one is present.
pub open spec fn normalized_arn(arn: Seq<char>) -> Seq<char> {
    if arn.len() >= 2 && arn[arn.len() - 2] == ':' && arn[arn.len() - 1] == '*' {
        arn.subrange(0, arn.len() - 2)
    } else {
        arn
    }
}

/// Strips the trailing `:*` wildcard that log-group ARNs carry, which the
/// tagging operations do not accept as part of a resource identifier.
pub fn strip_wildcard_suffix(arn: &str) -> (r: String)
    ensures
        r@ == normalized_arn(arn@),
{
    let n = arn.unicode_len();
    if n >= 2 && arn.get_char(n - 2) == ':' && arn.get_char(n - 1) == '*' {
        let stripped = arn.substring_char(0, n - 2);
        String::from_str(stripped)
    } else {
        String::from_str(arn)
    }
}

/// True when some pair in `pairs` has key `key`.
pub open spec fn pairs_contain_key(pairs: Seq<(Seq<char>, Seq<char>)>, key: Seq<char>) -> bool {
    exists|i: int| 0 <= i < pairs.len() && pairs[i].0 == key
}

/// The value of the first pair in `pairs` with key `key`, if any.
pub open spec fn pairs_first_value(pairs: Seq<(Seq<char>, Seq<char>)>, key: Seq<char>) -> Option<
    Seq<char>,
>
    decreases pairs.len(),
{
    if pairs.len() == 0 {
        None
    } else if pairs[0].0 == key {
        Some(pairs[0].1)
    } else {
        pairs_first_value(pairs.skip(1), key)
    }
}

/// Finds the first tag with the given key, returning its value.
pub fn tags_lookup<'a>(tags: &'a Vec<(String, String)>, key: &String) -> (r: Option<&'a String>)
    ensures
        r is Some <==> pairs_contain_key(tags.deep_view(), key@),
        r matches Some(v) ==> pairs_first_value(tags.deep_view(), key@) == Some(v@),
{
    let ghost pairs = tags.deep_view();
    proof {
        assert(pairs.skip(0) =~= pairs);
    }
    let mut j: usize = 0;
    while j < tags.len()
        invariant
            0 <= j <= tags.len(),
            pairs == tags.deep_view(),
            pairs.len() == tags.len(),
            forall|i: int| 0 <= i < j ==> pairs[i].0 != key@,
            forall|i: int| 0 <= i < pairs.len() ==> pairs[i] == (tags@[i].0@, tags@[i].1@),
            pairs_first_value(pairs, key@) == pairs_first_value(pairs.skip(j as int), key@),
        decreases tags.len() - j,
    {
        proof {
            assert(pairs.skip(j as int).len() > 0);
            assert(pairs.skip(j as int)[0] == pairs[j as int]);
        }
        if tags[j].0 == *key {
            assert(pairs[j as int].0 == key@);
            return Some(&tags[j].1);
        }
        proof {
            assert(pairs.skip(j as int).skip(1) =~= pairs.skip(j as int + 1));
        }
        j += 1;
    }
    assert(pairs.skip(j as int) =~= Seq::<(Seq<char>, Seq<char>)>::empty());
    None
}

/// The character of one decimal digit.
pub open spec fn dec_digit_char(d: int) -> char {
    if d == 0 {
        '0'
    } else if d == 1 {
        '1'
    } else if d == 2 {
        '2'
    } else if d == 3 {
        '3'
    } else if d == 4 {
        '4'
    } else if d == 5 {
        '5'
    } else if d == 6 {
        '6'
    } else if d == 7 {
        '7'
    } else if d == 8 {
        '8'
    } else {
        '9'
    }
}

/// The decimal digits of a non-negative number, most significant first.
pub open spec fn dec_digits_text(n: nat) -> Seq<char>
    decreases n,
{
    if n < 10 {
        seq![dec_digit_char(n as int)]
    } else {
        dec_digits_text(n / 10) + seq![dec_digit_char((n % 10) as int)]
    }
}

/// The decimal rendering of a signed number: a minus sign when negative,
/// then its magnitude's digits.
pub open spec fn i32_text(n: int) -> Seq<char> {
    if n < 0 {
        seq!['-'] + dec_digits_text((-n) as nat)
    } else {
        dec_digits_text(n as nat)
    }
}

/// One decimal digit's character, as text.
fn dec_digit_str(d: u32) -> (r: &'static str)
    requires
        d < 10,
    ensures
        r@ == seq![dec_digit_char(d as int)],
{
    proof {
        reveal_strlit("0");
        reveal_strlit("1");
        reveal_strlit("2");
        reveal_strlit("3");
        reveal_strlit("4");
        reveal_strlit("5");
        reveal_strlit("6");
        reveal_strlit("7");
        reveal_strlit("8");
        reveal_strlit("9");
    }
    let r = match d {
        0 => "0",
        1 => "1",
        2 => "2",
        3 => "3",
        4 => "4",
        5 => "5",
        6 => "6",
        7 => "7",
        8 => "8",
        _ => "9",
    };
    assert(r@ =~= seq![dec_digit_char(d as int)]);
    r
}

/// Renders a non-negative number in decimal.
fn dec_digits_string(n: u32) -> (r: String)
    ensures
        r@ == dec_digits_text(n as nat),
    decreases n,
{
    if n < 10 {
        let r = String::from_str(dec_digit_str(n));
        assert(r@ =~= dec_digits_text(n as nat));
        r
    } else {
        assert(n / 10 < n) by (nonlinear_arith)
            requires
                n >= 10,
        ;
        assert(n % 10 < 10) by (nonlinear_arith);
        let mut r = dec_digits_string(n / 10);
        r.append(dec_digit_str(n % 10));
        assert(r@ =~= dec_digits_text(n as nat));
        r
    }
}

/// Renders a signed number in decimal, as [`i32_text`] describes.
pub fn i32_to_string(n: i32) -> (r: String)
    ensures
        r@ == i32_text(n as int),
{
    if n >= 0 {
        dec_digits_string(n as u32)
    } else {
        let magnitude: u32 = (-(n as i64)) as u32;
        assert(magnitude as int == -(n as int));
        let mut r = String::from_str("-");
        let ghost head = r@;
        r.append(dec_digits_string(magnitude).as_str());
        proof {
            reveal_strlit("-");
            assert(head =~= seq!['-']);
            assert(r@ =~= i32_text(n as int));
        }
        r
    }
}

} // verus!
