use vstd::prelude::*;

verus! {

/// The parsed JSON tree of the `json` crate, carried opaquely.
#[verifier::external_type_specification]
#[verifier::external_body]
pub struct ExJsonValue(json::JsonValue);

/// The parse error of the `json` crate, carried to the caller.
#[verifier::external_type_specification]
#[verifier::external_body]
pub struct ExJsonError(json::Error);

/// What `json::parse` makes of a text: the tree, or `None` where it refuses it.
pub uninterp spec fn json_parse_of(text: Seq<char>) -> Option<json::JsonValue>;

/// Number of items that `JsonValue::members` yields: those of an array, none otherwise.
pub uninterp spec fn json_member_count(v: json::JsonValue) -> nat;

/// What `JsonValue[i]` gives: the `i`-th item of an array.
pub uninterp spec fn json_element(v: json::JsonValue, i: int) -> json::JsonValue;

/// What `JsonValue[key]` gives: the value of an object's key, `null` where absent.
pub uninterp spec fn json_field(v: json::JsonValue, key: Seq<char>) -> json::JsonValue;

/// Whether `JsonValue::is_string` holds: the value is a string.
pub uninterp spec fn json_is_string(v: json::JsonValue) -> bool;

/// Whether `JsonValue::is_number` holds: the value is a number.
pub uninterp spec fn json_is_number(v: json::JsonValue) -> bool;

/// Longest run of consecutive digits that the loader hands to `json::parse`.
/// The parser lowers an `i16` decimal exponent once per fraction digit, so
/// `0.` followed by 32,769 zeros overflows it.
pub const MAX_DIGIT_RUN: usize = 32768;

/// An ASCII decimal digit.
pub open spec fn is_digit(c: char) -> bool {
    '0' <= c <= '9'
}

/// Length of the run of digits that ends at the end of `s`.
pub open spec fn trailing_digit_run(s: Seq<char>) -> nat
    decreases s.len(),
{
    if s.len() == 0 || !is_digit(s.last()) {
        0
    } else {
        trailing_digit_run(s.drop_last()) + 1
    }
}

/// Length of the longest run of consecutive digits in `s`.
pub open spec fn max_digit_run(s: Seq<char>) -> nat
    decreases s.len(),
{
    if s.len() == 0 {
        0
    } else {
        let before = max_digit_run(s.drop_last());
        let here = trailing_digit_run(s);
        if here > before {
            here
        } else {
            before
        }
    }
}

/// Relies on `json::parse`: its result depends on the text alone. It returns
/// on every text without a run of more than `MAX_DIGIT_RUN` digits.
#[verifier::external_body]
fn parse_text(text: &str) -> (r: Result<json::JsonValue, json::Error>)
    requires
        max_digit_run(text@) <= MAX_DIGIT_RUN,
    ensures
        r is Ok <==> json_parse_of(text@) is Some,
        r matches Ok(v) ==> json_parse_of(text@) == Some(v),
{
    json::parse(text)
}

/// Relies on `JsonValue::members`: the length of the slice iterator it returns.
#[verifier::external_body]
fn member_count(v: &json::JsonValue) -> (r: usize)
    ensures
        r == json_member_count(*v),
{
    v.members().len()
}

/// Relies on `Index<usize> for JsonValue`.
#[verifier::external_body]
fn element(v: &json::JsonValue, i: usize) -> (r: &json::JsonValue)
    ensures
        *r == json_element(*v, i as int),
{
    &v[i]
}

/// Relies on `Index<&str> for JsonValue`.
#[verifier::external_body]
fn field<'a>(v: &'a json::JsonValue, key: &str) -> (r: &'a json::JsonValue)
    ensures
        *r == json_field(*v, key@),
{
    &v[key]
}

/// Relies on `JsonValue::is_string`: whether the value is a string.
pub assume_specification[ json::JsonValue::is_string ](v: &json::JsonValue) -> (r: bool)
    ensures
        r == json_is_string(*v),
;

/// Relies on `JsonValue::is_number`: whether the value is a number.
pub assume_specification[ json::JsonValue::is_number ](v: &json::JsonValue) -> (r: bool)
    ensures
        r == json_is_number(*v),
;

/// Why a body record was skipped.
#[derive(Clone, Copy, Debug, PartialEq, Eq, Structural)]
pub enum RecordError {
    /// `name` is missing or not a string.
    Name,
    /// `position` is not three numbers.
    Position,
    /// `velocity` is not three numbers.
    Velocity,
    /// `mass` is missing or not a number.
    Mass,
}

/// Why a whole source was refused.
pub enum LoadError {
    /// The text holds a run of more than `MAX_DIGIT_RUN` digits.
    NumberTooLong,
    /// The text is not well-formed JSON.
    Malformed(json::Error),
}

/// A parsed source: its tree, the verdict on each record, and which records load.
pub struct LoadedSource {
    pub root: json::JsonValue,
    pub verdicts: Vec<Result<(), RecordError>>,
    pub accepted: Vec<usize>,
}

/// A vector field holds three numbers at indices 0, 1 and 2.
pub open spec fn triple_ok(v: json::JsonValue) -> bool {
    &&& json_is_number(json_element(v, 0))
    &&& json_is_number(json_element(v, 1))
    &&& json_is_number(json_element(v, 2))
}

/// The verdict on one record: the first of its fields, in the order name,
/// position, velocity, mass, that is missing or malformed.
pub open spec fn record_verdict(rec: json::JsonValue) -> Result<(), RecordError> {
    if !json_is_string(json_field(rec, "name"@)) {
        Err(RecordError::Name)
    } else if !triple_ok(json_field(rec, "position"@)) {
        Err(RecordError::Position)
    } else if !triple_ok(json_field(rec, "velocity"@)) {
        Err(RecordError::Velocity)
    } else if !json_is_number(json_field(rec, "mass"@)) {
        Err(RecordError::Mass)
    } else {
        Ok(())
    }
}

/// The indices of the accepted records, in their original order.
pub open spec fn accepted_indices(verdicts: Seq<Result<(), RecordError>>) -> Seq<usize>
    decreases verdicts.len(),
{
    if verdicts.len() == 0 {
        Seq::empty()
    } else {
        let rest = accepted_indices(verdicts.drop_last());
        if verdicts.last() is Ok {
            rest.push((verdicts.len() - 1) as usize)
        } else {
            rest
        }
    }
}

fn triple_is_numbers(v: &json::JsonValue) -> (r: bool)
    ensures
        r == triple_ok(*v),
{
    element(v, 0).is_number() && element(v, 1).is_number() && element(v, 2).is_number()
}

/// Checks one body record.
pub fn check_record(rec: &json::JsonValue) -> (r: Result<(), RecordError>)
    ensures
        r == record_verdict(*rec),
{
    if !field(rec, "name").is_string() {
        Err(RecordError::Name)
    } else if !triple_is_numbers(field(rec, "position")) {
        Err(RecordError::Position)
    } else if !triple_is_numbers(field(rec, "velocity")) {
        Err(RecordError::Velocity)
    } else if !field(rec, "mass").is_number() {
        Err(RecordError::Mass)
    } else {
        Ok(())
    }
}

/// Checks every record of a list, each on its own.
pub fn check_records(root: &json::JsonValue) -> (r: Vec<Result<(), RecordError>>)
    ensures
        r@.len() == json_member_count(*root),
        forall|i: int| 0 <= i < r@.len() ==> r@[i] == record_verdict(json_element(*root, i)),
{
    let n = member_count(root);
    let mut r: Vec<Result<(), RecordError>> = Vec::new();
    let mut i: usize = 0;
    while i < n
        invariant
            i <= n,
            n == json_member_count(*root),
            r@.len() == i,
            forall|k: int| 0 <= k < i ==> r@[k] == record_verdict(json_element(*root, k)),
        decreases n - i,
    {
        let v = check_record(element(root, i));
        r.push(v);
        i = i + 1;
    }
    r
}

/// The indices of the records that passed, in their original order.
pub fn accepted_records(verdicts: &Vec<Result<(), RecordError>>) -> (r: Vec<usize>)
    ensures
        r@ == accepted_indices(verdicts@),
{
    let mut r: Vec<usize> = Vec::new();
    let mut i: usize = 0;
    while i < verdicts.len()
        invariant
            i <= verdicts@.len(),
            r@ == accepted_indices(verdicts@.take(i as int)),
        decreases verdicts@.len() - i,
    {
        assert(verdicts@.take(i as int + 1).drop_last() =~= verdicts@.take(i as int));
        if verdicts[i].is_ok() {
            r.push(i);
        }
        i = i + 1;
    }
    assert(verdicts@.take(verdicts@.len() as int) =~= verdicts@);
    r
}

/// The length of the longest run of consecutive digits in `text`.
pub fn longest_digit_run(text: &str) -> (r: usize)
    ensures
        r == max_digit_run(text@),
{
    let total = text.unicode_len();
    let mut run: usize = 0;
    let mut best: usize = 0;
    for c in it: text.chars()
        invariant
            it.seq() == text@,
            total == text@.len(),
            run == trailing_digit_run(text@.take(it.index() as int)),
            best == max_digit_run(text@.take(it.index() as int)),
            run <= it.index(),
            best <= it.index(),
    {
        let ghost i = it.index() as int;
        assert(text@.take(i + 1).drop_last() =~= text@.take(i));
        if '0' <= c && c <= '9' {
            run = run + 1;
        } else {
            run = 0;
        }
        if run > best {
            best = run;
        }
    }
    assert(text@.take(text@.len() as int) =~= text@);
    best
}

/// Parses a source text and decides which of its records load. A text that
/// is not JSON, or holds a number too long for the parser, is refused whole;
/// otherwise each record stands on its own.
pub fn load_source(text: &str) -> (r: Result<LoadedSource, LoadError>)
    ensures
        r matches Err(LoadError::NumberTooLong) <==> max_digit_run(text@) > MAX_DIGIT_RUN,
        r matches Err(LoadError::Malformed(_)) <==> max_digit_run(text@) <= MAX_DIGIT_RUN
            && json_parse_of(text@) is None,
        r matches Ok(l) ==> {
            &&& json_parse_of(text@) == Some(l.root)
            &&& l.verdicts@.len() == json_member_count(l.root)
            &&& forall|i: int|
                0 <= i < l.verdicts@.len() ==> l.verdicts@[i] == record_verdict(
                    json_element(l.root, i),
                )
            &&& l.accepted@ == accepted_indices(l.verdicts@)
        },
{
    if longest_digit_run(text) > MAX_DIGIT_RUN {
        return Err(LoadError::NumberTooLong);
    }
    match parse_text(text) {
        Err(e) => Err(LoadError::Malformed(e)),
        Ok(root) => {
            let verdicts = check_records(&root);
            let accepted = accepted_records(&verdicts);
            Ok(LoadedSource { root, verdicts, accepted })
        },
    }
}

/// Partial tolerance of the loader: the records that load are exactly those
/// whose verdict is `Ok`, each once, in their original relative order, and a
/// bad record removes only itself.
pub proof fn lemma_accepted_exactly_valid(verdicts: Seq<Result<(), RecordError>>)
    requires
        verdicts.len() <= usize::MAX,
    ensures
        forall|k: int|
            0 <= k < accepted_indices(verdicts).len() ==> {
                let i = #[trigger] accepted_indices(verdicts)[k];
                i < verdicts.len() && verdicts[i as int] is Ok
            },
        forall|k1: int, k2: int|
            0 <= k1 < k2 < accepted_indices(verdicts).len() ==> #[trigger] accepted_indices(
                verdicts,
            )[k1] < #[trigger] accepted_indices(verdicts)[k2],
        forall|i: int|
            0 <= i < verdicts.len() && #[trigger] verdicts[i] is Ok ==> accepted_indices(
                verdicts,
            ).contains(i as usize),
    decreases verdicts.len(),
{
    if verdicts.len() > 0 {
        let prev = verdicts.drop_last();
        lemma_accepted_exactly_valid(prev);
        let a = accepted_indices(prev);
        let s = accepted_indices(verdicts);
        let last = (verdicts.len() - 1) as usize;
        assert forall|k: int| 0 <= k < s.len() implies {
            let i = #[trigger] s[k];
            i < verdicts.len() && verdicts[i as int] is Ok
        } by {
            if k < a.len() {
                assert(s[k] == a[k]);
                assert(prev[a[k] as int] == verdicts[a[k] as int]);
            }
        }
        assert forall|k1: int, k2: int| 0 <= k1 < k2 < s.len() implies #[trigger] s[k1]
            < #[trigger] s[k2] by {
            assert(s[k1] == a[k1]);
            if k2 < a.len() {
                assert(s[k2] == a[k2]);
            } else {
                assert(a[k1] < prev.len());
            }
        }
        assert forall|i: int| 0 <= i < verdicts.len() && #[trigger] verdicts[i] is Ok implies s.contains(
            i as usize,
        ) by {
            if i < prev.len() {
                assert(prev[i] == verdicts[i]);
                let k = choose|k: int| 0 <= k < a.len() && a[k] == i as usize;
                assert(s[k] == i as usize);
            } else {
                assert(s[s.len() - 1] == last);
            }
        }
    }
}

} // verus!
