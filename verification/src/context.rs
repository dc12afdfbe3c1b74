//! Configuration: the recognized command-line arguments, how each is
//! parsed from the parameter list, and the resolved run parameters.

use vstd::prelude::*;
use vstd::string::StrSliceExecFns;
use vstd::string::StringExecFns;

use crate::alphabet::default_alphabet;
use crate::alphabet::first_index_of;
use crate::alphabet::position_of_char;

verus! {

// ---------------------------------------------------------------------
// Locating a keyword and its raw value in the parameter list.
// ---------------------------------------------------------------------
/// The first index where `params` holds exactly the keyword, or -1 when
/// the keyword does not occur.
pub open spec fn spec_position(params: Seq<String>, kw: Seq<char>) -> int
    decreases params.len(),
{
    if params.len() == 0 {
        -1
    } else if params[0]@ == kw {
        0
    } else {
        let r = spec_position(params.drop_first(), kw);
        if r < 0 {
            -1
        } else {
            r + 1
        }
    }
}

/// The raw text that follows the keyword, or the error reported when the
/// keyword or its value is missing.
pub open spec fn spec_raw_value(params: Seq<String>, kw: Seq<char>) -> Result<Seq<char>, Seq<char>> {
    let i = spec_position(params, kw);
    if i < 0 {
        Err(kw + " not provided"@)
    } else if i + 1 >= params.len() {
        Err(kw + " value not provided"@)
    } else {
        Ok(params[i + 1]@)
    }
}

/// A keyword found at `i` with no earlier occurrence is where
/// `spec_position` points.
proof fn lemma_spec_position_found(params: Seq<String>, kw: Seq<char>, i: int)
    requires
        0 <= i < params.len(),
        params[i]@ == kw,
        forall|j: int| 0 <= j < i ==> params[j]@ != kw,
    ensures
        spec_position(params, kw) == i,
    decreases params.len(),
{
    if i > 0 {
        assert forall|j: int| 0 <= j < i - 1 implies params.drop_first()[j]@ != kw by {
            assert(params[j + 1]@ != kw);
        }
        lemma_spec_position_found(params.drop_first(), kw, i - 1);
    }
}

/// A keyword that occurs nowhere has no position.
proof fn lemma_spec_position_absent(params: Seq<String>, kw: Seq<char>)
    requires
        forall|j: int| 0 <= j < params.len() ==> params[j]@ != kw,
    ensures
        spec_position(params, kw) == -1,
    decreases params.len(),
{
    if params.len() > 0 {
        assert forall|j: int| 0 <= j < params.len() - 1 implies params.drop_first()[j]@ != kw by {
            assert(params[j + 1]@ != kw);
        }
        lemma_spec_position_absent(params.drop_first(), kw);
    }
}

/// Character-for-character equality of two string slices.
fn str_eq(a: &str, b: &str) -> (r: bool)
    ensures
        r == (a@ == b@),
{
    let alen = a.unicode_len();
    let blen = b.unicode_len();
    if alen != blen {
        return false;
    }
    let mut i: usize = 0;
    while i < alen
        invariant
            i <= alen,
            alen == a@.len(),
            alen == b@.len(),
            forall|j: int| 0 <= j < i ==> a@[j] == b@[j],
        decreases alen - i,
    {
        if a.get_char(i) != b.get_char(i) {
            return false;
        }
        i = i + 1;
    }
    proof {
        assert(a@ =~= b@);
    }
    true
}

// ---------------------------------------------------------------------
// Reading a value out of the raw text.
// ---------------------------------------------------------------------
/// A decimal digit character.
pub open spec fn is_digit(c: char) -> bool {
    48 <= c as u32 <= 57
}

/// The numeric value of one digit character.
pub open spec fn digit_val(c: char) -> int {
    c as u32 - 48
}

/// The text with an optional leading plus sign removed.
pub open spec fn unsigned_digits(s: Seq<char>) -> Seq<char> {
    if s.len() > 0 && s[0] == '+' {
        s.drop_first()
    } else {
        s
    }
}

/// Every character is a decimal digit.
pub open spec fn all_digits(s: Seq<char>) -> bool {
    forall|i: int| 0 <= i < s.len() ==> is_digit(#[trigger] s[i])
}

/// The number the digit string denotes, most-significant digit first.
pub open spec fn digits_value(s: Seq<char>) -> int
    decreases s.len(),
{
    if s.len() == 0 {
        0
    } else {
        digits_value(s.drop_last()) * 10 + digit_val(s.last())
    }
}

/// A digit string denotes a value no smaller than what any prefix denotes,
/// and never a negative one.
proof fn lemma_digits_value_mono(s: Seq<char>, i: int)
    requires
        all_digits(s),
        0 <= i <= s.len(),
    ensures
        0 <= digits_value(s.take(i)) <= digits_value(s),
    decreases s.len() - i,
{
    if i == s.len() {
        assert(s.take(i) =~= s);
        lemma_digits_value_nonneg(s);
    } else {
        lemma_digits_value_mono(s, i + 1);
        assert(s.take(i + 1).drop_last() =~= s.take(i));
        assert(digits_value(s.take(i + 1)) == digits_value(s.take(i)) * 10 + digit_val(
            s.take(i + 1).last(),
        ));
        lemma_digits_value_nonneg(s.take(i));
    }
}

/// A string of digits denotes a non-negative number.
proof fn lemma_digits_value_nonneg(s: Seq<char>)
    requires
        all_digits(s),
    ensures
        digits_value(s) >= 0,
    decreases s.len(),
{
    if s.len() > 0 {
        assert(all_digits(s.drop_last())) by {
            assert forall|i: int| 0 <= i < s.len() - 1 implies is_digit(
                #[trigger] s.drop_last()[i],
            ) by {
                assert(is_digit(s[i]));
            }
        }
        lemma_digits_value_nonneg(s.drop_last());
    }
}

/// What `--length` and `--start-with` text parses to: an optional leading
/// plus sign, then only digits, denoting a value that fits.
pub open spec fn spec_parse_usize(s: Seq<char>) -> Option<usize> {
    let d = unsigned_digits(s);
    if d.len() > 0 && all_digits(d) && digits_value(d) <= usize::MAX {
        Some(digits_value(d) as usize)
    } else {
        None
    }
}

/// What `--size` text parses to.
pub open spec fn spec_parse_u32(s: Seq<char>) -> Option<u32> {
    let d = unsigned_digits(s);
    if d.len() > 0 && all_digits(d) && digits_value(d) <= u32::MAX {
        Some(digits_value(d) as u32)
    } else {
        None
    }
}

/// What `--verbose` text parses to: exactly `true` or `false`.
pub open spec fn spec_parse_bool(s: Seq<char>) -> Option<bool> {
    if s == "true"@ {
        Some(true)
    } else if s == "false"@ {
        Some(false)
    } else {
        None
    }
}

/// What `--start-with-char` text parses to: exactly one character.
pub open spec fn spec_parse_char(s: Seq<char>) -> Option<char> {
    if s.len() == 1 {
        Some(s[0])
    } else {
        None
    }
}

/// Reads a `usize` out of decimal text.
fn parse_usize_str(s: &str) -> (r: Option<usize>)
    ensures
        r == spec_parse_usize(s@),
{
    let len = s.unicode_len();
    let mut start: usize = 0;
    if len > 0 && s.get_char(0) == '+' {
        start = 1;
    }
    let ghost d = unsigned_digits(s@);
    proof {
        assert(d =~= s@.skip(start as int));
    }
    if len == start {
        return None;
    }
    let mut v: usize = 0;
    let mut i: usize = start;
    while i < len
        invariant
            start <= i <= len,
            len == s@.len(),
            start < len,
            d == unsigned_digits(s@),
            d == s@.skip(start as int),
            all_digits(d.take(i - start)),
            v == digits_value(d.take(i - start)),
        decreases len - i,
    {
        let c = s.get_char(i);
        let u = c as u32;
        if u < 48 || u > 57 {
            proof {
                assert(0 <= i - start < d.len());
                assert(d[i - start] == s@[i as int]);
                assert(!is_digit(d[i - start]));
                assert(!all_digits(d));
                assert(spec_parse_usize(s@) is None);
            }
            return None;
        }
        let dv: usize = (u - 48) as usize;
        proof {
            assert(dv == digit_val(s@[i as int]));
            assert(d.take(i - start + 1).drop_last() =~= d.take(i - start));
            assert(d.take(i - start + 1).last() == s@[i as int]);
            assert(digits_value(d.take(i - start + 1)) == v * 10 + dv);
        }
        if v > (usize::MAX - dv) / 10 {
            proof {
                let q = (usize::MAX - dv) / 10;
                assert(usize::MAX - dv == 10 * q + ((usize::MAX - dv) % 10));
                assert((usize::MAX - dv) % 10 < 10);
                assert(v >= q + 1);
                assert(v * 10 + dv > usize::MAX) by {
                    assert(v * 10 >= (q + 1) * 10) by (nonlinear_arith)
                        requires v >= q + 1;
                }
                assert(digits_value(d.take(i - start + 1)) > usize::MAX);
                if all_digits(d) {
                    lemma_digits_value_mono(d, i - start + 1);
                    assert(digits_value(d) > usize::MAX);
                }
                assert(spec_parse_usize(s@) is None);
            }
            return None;
        }
        v = v * 10 + dv;
        i = i + 1;
    }
    proof {
        assert(d.take(i - start) =~= d);
    }
    Some(v)
}

/// Reads a `u32` out of decimal text.
fn parse_u32_str(s: &str) -> (r: Option<u32>)
    ensures
        r == spec_parse_u32(s@),
{
    let len = s.unicode_len();
    let mut start: usize = 0;
    if len > 0 && s.get_char(0) == '+' {
        start = 1;
    }
    let ghost d = unsigned_digits(s@);
    proof {
        assert(d =~= s@.skip(start as int));
    }
    if len == start {
        return None;
    }
    let mut v: u32 = 0;
    let mut i: usize = start;
    while i < len
        invariant
            start <= i <= len,
            len == s@.len(),
            start < len,
            d == unsigned_digits(s@),
            d == s@.skip(start as int),
            all_digits(d.take(i - start)),
            v == digits_value(d.take(i - start)),
        decreases len - i,
    {
        let c = s.get_char(i);
        let u = c as u32;
        if u < 48 || u > 57 {
            proof {
                assert(d[i - start] == s@[i as int]);
                assert(!is_digit(d[i - start]));
            }
            return None;
        }
        let dv: u32 = u - 48;
        proof {
            assert(d.take(i - start + 1).drop_last() =~= d.take(i - start));
            assert(d.take(i - start + 1).last() == s@[i as int]);
        }
        if v > (u32::MAX - dv) / 10 {
            proof {
                assert(digits_value(d.take(i - start + 1)) > u32::MAX);
                if all_digits(d) {
                    lemma_digits_value_mono(d, i - start + 1);
                }
            }
            return None;
        }
        v = v * 10 + dv;
        i = i + 1;
    }
    proof {
        assert(d.take(i - start) =~= d);
    }
    Some(v)
}

/// Reads a `bool` out of the text `true` or `false`.
fn parse_bool_str(s: &str) -> (r: Option<bool>)
    ensures
        r == spec_parse_bool(s@),
{
    if str_eq(s, "true") {
        Some(true)
    } else if str_eq(s, "false") {
        // The two literals differ, so the text cannot also read as `true`.
        proof {
            reveal_strlit("true");
            reveal_strlit("false");
        }
        Some(false)
    } else {
        None
    }
}

/// Reads a `char` out of text that holds exactly one character.
fn parse_char_str(s: &str) -> (r: Option<char>)
    ensures
        r == spec_parse_char(s@),
{
    if s.unicode_len() == 1 {
        Some(s.get_char(0))
    } else {
        None
    }
}

/// The keyword followed by a fixed remark, as one message.
fn keyword_message(kw: &str, suffix: &str) -> (r: String)
    ensures
        r@ == kw@ + suffix@,
{
    let mut m = kw.to_owned();
    m.append(suffix);
    m
}

/// The message reported when raw text does not read as the wanted type.
fn parse_failure_message(value: &str, suffix: &str) -> (r: String)
    ensures
        r@ == "Impossible to parse "@ + value@ + suffix@,
{
    let mut m = String::from_str("Impossible to parse ");
    m.append(value);
    m.append(suffix);
    m
}

// ---------------------------------------------------------------------
// Arguments.
// ---------------------------------------------------------------------
/// One recognized command-line argument holding a value of type `T`:
/// the keyword that introduces it, its help text, the value read so far,
/// and the value it falls back to when parsing fails.
pub struct Argument<T> {
    pub keyword: &'static str,
    pub description: &'static str,
    pub value: Option<T>,
    pub default: Option<T>,
}

impl<T> Argument<T> {
    /// Finds the keyword in the parameter list and hands back the raw
    /// text that follows it, or the error naming what is missing.
    fn parse_core(&self, params: &Vec<String>) -> (r: Result<String, String>)
        ensures
            match r {
                Ok(v) => spec_raw_value(params@, self.keyword@) == Ok::<Seq<char>, Seq<char>>(v@),
                Err(e) => spec_raw_value(params@, self.keyword@) == Err::<Seq<char>, Seq<char>>(
                    e@,
                ),
            },
    {
        let n = params.len();
        let mut i: usize = 0;
        while i < n
            invariant
                i <= n,
                n == params@.len(),
                forall|j: int| 0 <= j < i ==> params@[j]@ != self.keyword@,
            decreases n - i,
        {
            if str_eq(params[i].as_str(), self.keyword) {
                proof {
                    lemma_spec_position_found(params@, self.keyword@, i as int);
                }
                if i + 1 < n {
                    return Ok(params[i + 1].clone());
                } else {
                    return Err(keyword_message(self.keyword, " value not provided"));
                }
            }
            i = i + 1;
        }
        proof {
            lemma_spec_position_absent(params@, self.keyword@);
        }
        Err(keyword_message(self.keyword, " not provided"))
    }
}

/// How an argument of type `T` reads its value out of the parameter list.
pub trait Parse<T: View>: Sized {
    /// The parse outcome, over views: the value read from the text after
    /// the keyword, or the error reported.
    spec fn parse_spec(&self, params: Seq<String>) -> Result<T::V, Seq<char>>;

    /// Parses the argument from the parameter list; the outcome is
    /// exactly `parse_spec`. Leaves the argument itself unchanged.
    fn parse(&mut self, params: &Vec<String>) -> (r: Result<T, String>)
        ensures
            *final(self) == *old(self),
            match r {
                Ok(v) => old(self).parse_spec(params@) == Ok::<T::V, Seq<char>>(v@),
                Err(e) => old(self).parse_spec(params@) == Err::<T::V, Seq<char>>(e@),
            },
    ;

    /// An exact duplicate of a parsed value, so an argument can both
    /// store its result and hand it back.
    fn copy_value(v: &T) -> (r: T)
        ensures
            r == *v,
    ;
}

impl Parse<usize> for Argument<usize> {
    open spec fn parse_spec(&self, params: Seq<String>) -> Result<usize, Seq<char>> {
        match spec_raw_value(params, self.keyword@) {
            Ok(text) => match spec_parse_usize(text) {
                Some(v) => Ok(v),
                None => Err("Impossible to parse "@ + text + " to usize"@),
            },
            Err(e) => Err(e),
        }
    }

    fn parse(&mut self, params: &Vec<String>) -> (r: Result<usize, String>) {
        match self.parse_core(params) {
            Ok(text) => match parse_usize_str(text.as_str()) {
                Some(v) => Ok(v),
                None => Err(parse_failure_message(text.as_str(), " to usize")),
            },
            Err(e) => Err(e),
        }
    }

    fn copy_value(v: &usize) -> usize {
        *v
    }
}

impl Parse<u32> for Argument<u32> {
    open spec fn parse_spec(&self, params: Seq<String>) -> Result<u32, Seq<char>> {
        match spec_raw_value(params, self.keyword@) {
            Ok(text) => match spec_parse_u32(text) {
                Some(v) => Ok(v),
                None => Err("Impossible to parse "@ + text + " to u32"@),
            },
            Err(e) => Err(e),
        }
    }

    fn parse(&mut self, params: &Vec<String>) -> (r: Result<u32, String>) {
        match self.parse_core(params) {
            Ok(text) => match parse_u32_str(text.as_str()) {
                Some(v) => Ok(v),
                None => Err(parse_failure_message(text.as_str(), " to u32")),
            },
            Err(e) => Err(e),
        }
    }

    fn copy_value(v: &u32) -> u32 {
        *v
    }
}

impl Parse<bool> for Argument<bool> {
    open spec fn parse_spec(&self, params: Seq<String>) -> Result<bool, Seq<char>> {
        match spec_raw_value(params, self.keyword@) {
            Ok(text) => match spec_parse_bool(text) {
                Some(v) => Ok(v),
                None => Err("Impossible to parse "@ + text + " to boolean"@),
            },
            Err(e) => Err(e),
        }
    }

    fn parse(&mut self, params: &Vec<String>) -> (r: Result<bool, String>) {
        match self.parse_core(params) {
            Ok(text) => match parse_bool_str(text.as_str()) {
                Some(v) => Ok(v),
                None => Err(parse_failure_message(text.as_str(), " to boolean")),
            },
            Err(e) => Err(e),
        }
    }

    fn copy_value(v: &bool) -> bool {
        *v
    }
}

impl Parse<char> for Argument<char> {
    open spec fn parse_spec(&self, params: Seq<String>) -> Result<char, Seq<char>> {
        match spec_raw_value(params, self.keyword@) {
            Ok(text) => match spec_parse_char(text) {
                Some(v) => Ok(v),
                None => Err("Impossible to parse "@ + text + " to char"@),
            },
            Err(e) => Err(e),
        }
    }

    fn parse(&mut self, params: &Vec<String>) -> (r: Result<char, String>) {
        match self.parse_core(params) {
            Ok(text) => match parse_char_str(text.as_str()) {
                Some(v) => Ok(v),
                None => Err(parse_failure_message(text.as_str(), " to char")),
            },
            Err(e) => Err(e),
        }
    }

    fn copy_value(v: &char) -> char {
        *v
    }
}

impl Parse<String> for Argument<String> {
    open spec fn parse_spec(&self, params: Seq<String>) -> Result<Seq<char>, Seq<char>> {
        spec_raw_value(params, self.keyword@)
    }

    fn parse(&mut self, params: &Vec<String>) -> (r: Result<String, String>) {
        self.parse_core(params)
    }

    fn copy_value(v: &String) -> String {
        v.clone()
    }
}

/// The outcome once the default is applied: a failed parse falls back to
/// the default when the argument has one.
pub open spec fn resolved<V>(parsed: Result<V, Seq<char>>, default: Option<V>) -> Result<
    V,
    Seq<char>,
> {
    match parsed {
        Ok(v) => Ok(v),
        Err(e) => match default {
            Some(d) => Ok(d),
            None => Err(e),
        },
    }
}

/// An optional value seen through its view.
pub open spec fn view_opt<T: View>(o: Option<T>) -> Option<T::V> {
    match o {
        Some(v) => Some(v@),
        None => None,
    }
}

impl<T: View> Argument<T> where Argument<T>: Parse<T> {
    /// Parses the argument, falls back to its default when parsing fails
    /// and a default exists, and stores the value it settles on. An error
    /// comes back only when parsing fails and no default exists.
    pub fn try_set(&mut self, params: &Vec<String>) -> (r: Result<T, String>)
        ensures
            final(self).keyword == old(self).keyword,
            final(self).description == old(self).description,
            final(self).default == old(self).default,
            match r {
                Ok(v) => {
                    &&& resolved(old(self).parse_spec(params@), view_opt(old(self).default))
                        == Ok::<T::V, Seq<char>>(v@)
                    &&& final(self).value == Some(v)
                },
                Err(e) => {
                    &&& resolved(old(self).parse_spec(params@), view_opt(old(self).default))
                        == Err::<T::V, Seq<char>>(e@)
                    &&& final(self).value == old(self).value
                },
            },
    {
        let parsed = self.parse(params);
        let result: T = match parsed {
            Ok(v) => v,
            Err(e) => {
                match &self.default {
                    Some(d) => <Argument<T> as Parse<T>>::copy_value(d),
                    None => {
                        return Err(e);
                    },
                }
            },
        };
        self.value = Some(<Argument<T> as Parse<T>>::copy_value(&result));
        Ok(result)
    }
}

// ---------------------------------------------------------------------
// The application context and the resolved parameters.
// ---------------------------------------------------------------------
/// All recognized arguments of a run, together with the symbol table the
/// run enumerates over.
pub struct AppContext {
    pub start_with: Argument<usize>,
    pub start_with_char: Argument<char>,
    pub word_length: Argument<usize>,
    pub file: Argument<String>,
    pub size: Argument<u32>,
    pub verbose: Argument<bool>,
    pub available_chars: Vec<char>,
}

/// The settled configuration a run starts from.
#[derive(Debug)]
pub struct AppParameters {
    pub start_with: usize,
    pub start_with_char: usize,
    pub word_length: usize,
    pub file: String,
    pub size: u32,
    pub verbose: bool,
    pub available_chars: Vec<char>,
}

/// The alphabet index the starting character resolves to: the index of
/// its first occurrence, or index 0 when the character is absent.
pub open spec fn spec_resolve_index(chars: Seq<char>, c: char) -> int {
    if first_index_of(chars, c) >= 0 {
        first_index_of(chars, c)
    } else {
        0
    }
}

/// The context keeps its keywords, help texts, defaults and alphabet.
pub open spec fn same_shape(a: AppContext, b: AppContext) -> bool {
    &&& b.start_with.keyword == a.start_with.keyword
    &&& b.start_with.description == a.start_with.description
    &&& b.start_with.default == a.start_with.default
    &&& b.start_with_char.keyword == a.start_with_char.keyword
    &&& b.start_with_char.description == a.start_with_char.description
    &&& b.start_with_char.default == a.start_with_char.default
    &&& b.word_length.keyword == a.word_length.keyword
    &&& b.word_length.description == a.word_length.description
    &&& b.word_length.default == a.word_length.default
    &&& b.file.keyword == a.file.keyword
    &&& b.file.description == a.file.description
    &&& b.file.default == a.file.default
    &&& b.size.keyword == a.size.keyword
    &&& b.size.description == a.size.description
    &&& b.size.default == a.size.default
    &&& b.verbose.keyword == a.verbose.keyword
    &&& b.verbose.description == a.verbose.description
    &&& b.verbose.default == a.verbose.default
    &&& b.available_chars == a.available_chars
}

impl AppParameters {
    /// Collects the parsed argument values into run parameters. Every
    /// argument must have settled on a value; the starting character is
    /// resolved to its alphabet index, index 0 when it is absent.
    pub fn from(context: &AppContext) -> (r: AppParameters)
        requires
            context.start_with.value is Some,
            context.start_with_char.value is Some,
            context.word_length.value is Some,
            context.file.value is Some,
            context.size.value is Some,
            context.verbose.value is Some,
        ensures
            r.start_with == context.start_with.value->Some_0,
            r.word_length == context.word_length.value->Some_0,
            r.file == context.file.value->Some_0,
            r.size == context.size.value->Some_0,
            r.verbose == context.verbose.value->Some_0,
            r.available_chars@ == context.available_chars@,
            r.start_with_char == spec_resolve_index(
                context.available_chars@,
                context.start_with_char.value->Some_0,
            ),
    {
        let file: String = match &context.file.value {
            Some(f) => f.clone(),
            None => String::new(),
        };
        let c = context.start_with_char.value.unwrap();
        let start_with_char: usize = match position_of_char(&context.available_chars, c) {
            Some(i) => i,
            None => 0,
        };
        AppParameters {
            available_chars: context.available_chars.clone(),
            file,
            size: context.size.value.unwrap(),
            start_with: context.start_with.value.unwrap(),
            word_length: context.word_length.value.unwrap(),
            verbose: context.verbose.value.unwrap(),
            start_with_char,
        }
    }
}

impl AppContext {
    /// The recognized arguments with their keywords, help texts and
    /// defaults, and the default 96-symbol alphabet.
    pub fn new() -> (r: AppContext)
        ensures
            r.start_with.keyword@ == "--start-with"@,
            r.start_with.description@ == "Starts composing words from certain length. Optional."@,
            r.start_with.value is None,
            r.start_with.default == Some(0usize),
            r.start_with_char.keyword@ == "--start-with-char"@,
            r.start_with_char.description@
                == "Starting character when composing words. Can be used in combination of --start-with. Optional."@,
            r.start_with_char.value is None,
            r.start_with_char.default == Some(' '),
            r.word_length.keyword@ == "--length"@,
            r.word_length.description@ == "Executes until reaching the word length."@,
            r.word_length.value is None,
            r.word_length.default is None,
            r.file.keyword@ == "--file"@,
            r.file.description@ == "The output file name path."@,
            r.file.value is None,
            r.file.default is None,
            r.size.keyword@ == "--size"@,
            r.size.description@ == "Sets the maximum file size in Mb."@,
            r.size.value is None,
            r.size.default is None,
            r.verbose.keyword@ == "--verbose"@,
            r.verbose.description@
                == "Indicates whether it has to show output info or not. Optional. By default is set to false."@,
            r.verbose.value is None,
            r.verbose.default == Some(false),
            r.available_chars@ == default_alphabet(),
    {
        let mut available_chars: Vec<char> = Vec::new();
        let mut b: u8 = 32;
        while b <= 127
            invariant
                32 <= b <= 128,
                available_chars@ == Seq::new((b - 32) as nat, |i: int| (32 + i) as char),
            decreases 128 - b,
        {
            available_chars.push(b as char);
            b = b + 1;
            proof {
                assert(available_chars@ =~= Seq::new((b - 32) as nat, |i: int| (32 + i) as char));
            }
        }
        proof {
            assert(available_chars@ =~= default_alphabet());
        }
        AppContext {
            start_with: Argument {
                keyword: "--start-with",
                description: "Starts composing words from certain length. Optional.",
                value: None,
                default: Some(0),
            },
            start_with_char: Argument {
                keyword: "--start-with-char",
                description: "Starting character when composing words. Can be used in combination of --start-with. Optional.",
                value: None,
                default: Some(' '),
            },
            word_length: Argument {
                keyword: "--length",
                description: "Executes until reaching the word length.",
                value: None,
                default: None,
            },
            file: Argument {
                keyword: "--file",
                description: "The output file name path.",
                value: None,
                default: None,
            },
            size: Argument {
                keyword: "--size",
                description: "Sets the maximum file size in Mb.",
                value: None,
                default: None,
            },
            verbose: Argument {
                keyword: "--verbose",
                description: "Indicates whether it has to show output info or not. Optional. By default is set to false.",
                value: None,
                default: Some(false),
            },
            available_chars,
        }
    }

    /// Parses every recognized argument from the parameter list, in a
    /// fixed order, and collects the settled values into run parameters.
    /// The first argument that fails to parse and has no default reports
    /// its error; arguments with defaults never fail.
    pub fn get_parameters(&mut self, params: &Vec<String>) -> (r: Result<AppParameters, String>)
        ensures
            same_shape(*old(self), *final(self)),
            ({
                let m_wl = resolved(
                    old(self).word_length.parse_spec(params@),
                    view_opt(old(self).word_length.default),
                );
                let m_f = resolved(
                    old(self).file.parse_spec(params@),
                    view_opt(old(self).file.default),
                );
                let m_sz = resolved(
                    old(self).size.parse_spec(params@),
                    view_opt(old(self).size.default),
                );
                let m_sw = resolved(
                    old(self).start_with.parse_spec(params@),
                    view_opt(old(self).start_with.default),
                );
                let m_sc = resolved(
                    old(self).start_with_char.parse_spec(params@),
                    view_opt(old(self).start_with_char.default),
                );
                let m_v = resolved(
                    old(self).verbose.parse_spec(params@),
                    view_opt(old(self).verbose.default),
                );
                match r {
                    Ok(p) => {
                        &&& m_wl matches Ok(wl) && p.word_length == wl
                        &&& m_f matches Ok(f) && p.file@ == f
                        &&& m_sz matches Ok(sz) && p.size == sz
                        &&& m_sw matches Ok(sw) && p.start_with == sw
                        &&& m_sc matches Ok(sc) && p.start_with_char == spec_resolve_index(
                            old(self).available_chars@,
                            sc,
                        )
                        &&& m_v matches Ok(vb) && p.verbose == vb
                        &&& p.available_chars@ == old(self).available_chars@
                    },
                    Err(e) => {
                        ||| (m_wl is Err && e@ == m_wl->Err_0)
                        ||| (m_wl is Ok && m_f is Err && e@ == m_f->Err_0)
                        ||| (m_wl is Ok && m_f is Ok && m_sz is Err && e@ == m_sz->Err_0)
                        ||| (m_wl is Ok && m_f is Ok && m_sz is Ok && m_sw is Err && e@
                            == m_sw->Err_0)
                        ||| (m_wl is Ok && m_f is Ok && m_sz is Ok && m_sw is Ok && m_sc is Err
                            && e@ == m_sc->Err_0)
                        ||| (m_wl is Ok && m_f is Ok && m_sz is Ok && m_sw is Ok && m_sc is Ok
                            && m_v is Err && e@ == m_v->Err_0)
                    },
                }
            }),
    {
        match self.word_length.try_set(params) {
            Ok(_) => (),
            Err(e) => {
                return Err(e);
            },
        }
        match self.file.try_set(params) {
            Ok(_) => (),
            Err(e) => {
                return Err(e);
            },
        }
        match self.size.try_set(params) {
            Ok(_) => (),
            Err(e) => {
                return Err(e);
            },
        }
        match self.start_with.try_set(params) {
            Ok(_) => (),
            Err(e) => {
                return Err(e);
            },
        }
        match self.start_with_char.try_set(params) {
            Ok(_) => (),
            Err(e) => {
                return Err(e);
            },
        }
        match self.verbose.try_set(params) {
            Ok(_) => (),
            Err(e) => {
                return Err(e);
            },
        }
        Ok(AppParameters::from(self))
    }
}

} // verus!
