//! The per-invocation configuration: default retention days, provenance
//! tags, metrics namespace and cloud partition, each parsed from a raw
//! environment value with a documented fallback.

use vstd::prelude::*;

use crate::text::pairs_contain_key;

verus! {

/// Days of retention applied when the environment gives none, or an
/// unusable value.
pub const DEFAULT_RETENTION_DAYS: i32 = 30;

/// True for an ASCII decimal digit.
pub open spec fn is_dec_digit(c: char) -> bool {
    48 <= c as int && c as int <= 57
}

/// The numeric value of an ASCII decimal digit.
pub open spec fn dec_digit_value(c: char) -> int {
    c as int - 48
}

/// True when every character of `s` is an ASCII decimal digit.
pub open spec fn all_dec_digits(s: Seq<char>) -> bool {
    forall|i: int| 0 <= i < s.len() ==> is_dec_digit(#[trigger] s[i])
}

/// The base-ten value of a digit sequence.
pub open spec fn digits_value(s: Seq<char>) -> int
    decreases s.len(),
{
    if s.len() == 0 {
        0
    } else {
        digits_value(s.drop_last()) * 10 + dec_digit_value(s.last())
    }
}

/// The signed 32-bit integer a piece of text denotes: an optional sign,
/// then one or more decimal digits, whose value fits the type. Anything
/// else denotes nothing.
pub open spec fn parsed_i32(s: Seq<char>) -> Option<int> {
    let negative = s.len() > 0 && s[0] == '-';
    let digits = if s.len() > 0 && (s[0] == '-' || s[0] == '+') {
        s.skip(1)
    } else {
        s
    };
    if digits.len() > 0 && all_dec_digits(digits) {
        let value = if negative {
            -digits_value(digits)
        } else {
            digits_value(digits)
        };
        if i32::MIN <= value && value <= i32::MAX {
            Some(value)
        } else {
            None
        }
    } else {
        None
    }
}

/// A digit sequence's value is non-negative.
proof fn lemma_digits_value_nonneg(s: Seq<char>)
    requires
        all_dec_digits(s),
    ensures
        digits_value(s) >= 0,
    decreases s.len(),
{
    if s.len() > 0 {
        assert(all_dec_digits(s.drop_last())) by {
            assert(forall|i: int| 0 <= i < s.len() - 1 ==> s.drop_last()[i] == #[trigger] s[i]);
        }
        lemma_digits_value_nonneg(s.drop_last());
    }
}

/// Extending a digit sequence never shrinks its value.
proof fn lemma_digits_value_prefix(s: Seq<char>, k: int)
    requires
        all_dec_digits(s),
        0 <= k <= s.len(),
    ensures
        digits_value(s.subrange(0, k)) <= digits_value(s),
    decreases s.len(),
{
    if k == s.len() {
        assert(s.subrange(0, k) =~= s);
    } else {
        assert(all_dec_digits(s.drop_last())) by {
            assert(forall|i: int| 0 <= i < s.len() - 1 ==> s.drop_last()[i] == #[trigger] s[i]);
        }
        assert(s.subrange(0, k) =~= s.drop_last().subrange(0, k));
        lemma_digits_value_prefix(s.drop_last(), k);
        lemma_digits_value_nonneg(s.drop_last());
    }
}

/// Parses a signed 32-bit integer from text, exactly as [`parsed_i32`]
/// describes.
pub fn parse_i32(s: &str) -> (r: Option<i32>)
    ensures
        match r {
            Some(v) => parsed_i32(s@) == Some(v as int),
            None => parsed_i32(s@) is None,
        },
{
    let n = s.unicode_len();
    let mut start: usize = 0;
    let mut negative = false;
    if n > 0 {
        let c0 = s.get_char(0);
        if c0 == '-' {
            negative = true;
            start = 1;
        } else if c0 == '+' {
            start = 1;
        }
    }
    let ghost digits = if start == 1 { s@.skip(1) } else { s@ };
    assert(digits.len() == n - start);
    if start >= n {
        return None;
    }
    let mut acc: i64 = 0;
    let mut j: usize = start;
    while j < n
        invariant
            start <= j <= n,
            start <= 1,
            n == s@.len(),
            (start == 1) == (s@.len() > 0 && (s@[0] == '-' || s@[0] == '+')),
            negative == (s@.len() > 0 && s@[0] == '-'),
            digits == if start == 1 { s@.skip(1) } else { s@ },
            digits.len() == n - start,
            forall|i: int| 0 <= i < digits.len() ==> digits[i] == s@[i + start],
            all_dec_digits(digits.subrange(0, j - start)),
            acc == digits_value(digits.subrange(0, j - start)),
            0 <= acc <= 0x8000_0000,
        decreases n - j,
    {
        let c = s.get_char(j);
        let code = c as u32;
        let ghost prefix = digits.subrange(0, j - start);
        let ghost extended = digits.subrange(0, j + 1 - start);
        assert(extended.drop_last() =~= prefix);
        assert(extended.last() == digits[j - start]);
        if code < 48 || code > 57 {
            assert(!is_dec_digit(digits[j - start]));
            assert(!all_dec_digits(digits));
            return None;
        }
        let d = (code - 48) as i64;
        acc = acc * 10 + d;
        assert(all_dec_digits(extended));
        assert(acc == digits_value(extended));
        if acc > 0x8000_0000i64 {
            proof {
                if all_dec_digits(digits) {
                    lemma_digits_value_prefix(digits, j + 1 - start);
                }
            }
            return None;
        }
        j += 1;
    }
    assert(digits.subrange(0, n - start) =~= digits);
    assert(acc == digits_value(digits));
    assert(negative == (s@.len() > 0 && s@[0] == '-'));
    if negative {
        if acc > 0x8000_0000i64 {
            return None;
        }
        let value: i64 = -acc;
        Some(value as i32)
    } else {
        if acc > 0x7fff_ffffi64 {
            return None;
        }
        Some(acc as i32)
    }
}

/// The default retention in days resolved from a raw environment value:
/// a positive 32-bit integer, anything else falling back to the default.
pub open spec fn retention_days_of(raw: Option<Seq<char>>) -> int {
    match raw {
        None => DEFAULT_RETENTION_DAYS as int,
        Some(s) => match parsed_i32(s) {
            Some(v) => if v >= 1 {
                v
            } else {
                DEFAULT_RETENTION_DAYS as int
            },
            None => DEFAULT_RETENTION_DAYS as int,
        },
    }
}

/// Resolves the default retention days from a raw environment value.
pub fn parse_retention_days(raw: Option<&str>) -> (r: i32)
    ensures
        r as int == retention_days_of(raw.deep_view()),
        r >= 1,
{
    match raw {
        None => DEFAULT_RETENTION_DAYS,
        Some(s) => match parse_i32(s) {
            Some(v) => if v >= 1 {
                v
            } else {
                DEFAULT_RETENTION_DAYS
            },
            None => DEFAULT_RETENTION_DAYS,
        },
    }
}

/// The tag mapping a piece of text denotes when it is a JSON object whose
/// values are all strings; `None` for any other text.
pub uninterp spec fn tags_of_json(text: Seq<char>) -> Option<Map<Seq<char>, Seq<char>>>;

/// True when `pairs` lists exactly the entries of `m`, each key once.
pub open spec fn pairs_match_map(
    pairs: Seq<(Seq<char>, Seq<char>)>,
    m: Map<Seq<char>, Seq<char>>,
) -> bool {
    &&& forall|i: int| 0 <= i < pairs.len() ==> m.contains_key(#[trigger] pairs[i].0) && m[pairs[i].0]
        == pairs[i].1
    &&& forall|k: Seq<char>| m.contains_key(k) ==> pairs_contain_key(pairs, k)
    &&& forall|i: int, j: int| 0 <= i < j < pairs.len() ==> (#[trigger] pairs[i].0) != (#[trigger] pairs[j].0)
}

/// Relies on serde_json::from_str for `HashMap<String, String>`: the text
/// parses exactly when it is a JSON object whose values are all strings,
/// and the result holds that object's entries. The result depends on the
/// text alone.
#[verifier::external_body]
fn parse_tags_json(text: &str) -> (r: Option<Vec<(String, String)>>)
    ensures
        r is Some <==> tags_of_json(text@) is Some,
        r matches Some(tags) ==> (tags_of_json(text@) matches Some(m) && pairs_match_map(
            tags.deep_view(),
            m,
        )),
{
    let map: std::collections::HashMap<String, String> = serde_json::from_str(text).ok()?;
    Some(map.into_iter().collect())
}

/// Resolves the provenance tags from a raw environment value: the entries
/// of the JSON object it holds, or no tags at all when it is absent or not
/// such an object.
pub fn parse_log_group_tags(raw: Option<&str>) -> (r: Vec<(String, String)>)
    ensures
        match raw.deep_view() {
            None => r.deep_view() == Seq::<(Seq<char>, Seq<char>)>::empty(),
            Some(text) => match tags_of_json(text) {
                Some(m) => pairs_match_map(r.deep_view(), m),
                None => r.deep_view() == Seq::<(Seq<char>, Seq<char>)>::empty(),
            },
        },
{
    match raw {
        None => Vec::new(),
        Some(text) => match parse_tags_json(text) {
            Some(tags) => tags,
            None => Vec::new(),
        },
    }
}

/// The immutable per-invocation configuration.
pub struct RetentionConfig {
    /// Days of retention applied to a group that has none.
    pub retention_days: i32,
    /// Provenance tags attached to every group this system updates.
    pub log_group_tags: Vec<(String, String)>,
    /// Namespace that metrics are emitted under.
    pub metric_namespace: String,
    /// Cloud partition used when reconstructing a group ARN.
    pub aws_partition: String,
}

impl RetentionConfig {
    /// A configuration is well formed when its retention is positive, as
    /// the resolution from the environment guarantees.
    pub open spec fn wf(&self) -> bool {
        self.retention_days >= 1
    }

    /// Builds the configuration from the raw environment values, applying
    /// the documented defaults: 30 days, no tags, namespace "LogRotation",
    /// partition "aws".
    pub fn from_raw(
        retention: Option<&str>,
        tags_json: Option<&str>,
        namespace: Option<&str>,
        partition: Option<&str>,
    ) -> (r: RetentionConfig)
        ensures
            r.wf(),
            r.retention_days as int == retention_days_of(retention.deep_view()),
            match tags_json.deep_view() {
                None => r.log_group_tags.deep_view() == Seq::<(Seq<char>, Seq<char>)>::empty(),
                Some(text) => match tags_of_json(text) {
                    Some(m) => pairs_match_map(r.log_group_tags.deep_view(), m),
                    None => r.log_group_tags.deep_view() == Seq::<(Seq<char>, Seq<char>)>::empty(),
                },
            },
            r.metric_namespace@ == match namespace.deep_view() {
                None => "LogRotation"@,
                Some(s) => s,
            },
            r.aws_partition@ == match partition.deep_view() {
                None => "aws"@,
                Some(s) => s,
            },
    {
        RetentionConfig {
            retention_days: parse_retention_days(retention),
            log_group_tags: parse_log_group_tags(tags_json),
            metric_namespace: match namespace {
                None => String::from_str("LogRotation"),
                Some(s) => String::from_str(s),
            },
            aws_partition: match partition {
                None => String::from_str("aws"),
                Some(s) => String::from_str(s),
            },
        }
    }
}

} // verus!
