use vstd::prelude::*;
use crate::number::{digits_of, render_unsigned};
use crate::parser::attributes::{pairs_to_map, Attributes};
use crate::parser::scan::{
    find_either, first_of, lemma_first_of_bounds, lemma_skip_spaces_bounds, skip_spaces,
    skip_whitespace,
};
use crate::text::{same_text, string_of};
use vstd::string::StringExecFns;

verus! {

/// What the grammar needed at the place where parsing stopped.
#[derive(Debug, Clone, Copy, PartialEq, Eq, Structural)]
pub enum Expected {
    /// The `#` that starts a tag.
    Hash,
    /// At least one character of a tag name.
    TagName,
    /// The `=` between a key and its value.
    Equals,
    /// At least one character of a value.
    Value,
    /// The `"` that opens a quoted value.
    OpeningQuote,
    /// At least one character between the quotes.
    QuotedText,
    /// The `"` that closes a quoted value.
    ClosingQuote,
    /// The line with the URI of a variant stream.
    Uri,
}

/// A grammar failure: the position in the input, counted in characters, and
/// what was needed there.
#[derive(Debug, Clone, Copy, PartialEq, Eq, Structural)]
pub struct ParseFailure {
    pub at: usize,
    pub expected: Expected,
}

/// A grammar failure over an unbounded position, as the rules below state it.
pub struct Failure {
    pub at: int,
    pub expected: Expected,
}

impl Expected {
    /// What was needed, in words.
    pub open spec fn phrase(self) -> Seq<char> {
        match self {
            Expected::Hash => "'#' to start a tag"@,
            Expected::TagName => "the name of a tag"@,
            Expected::Equals => "'=' after an attribute key"@,
            Expected::Value => "an attribute value"@,
            Expected::OpeningQuote => "an opening quote"@,
            Expected::QuotedText => "text between quotes"@,
            Expected::ClosingQuote => "a closing quote"@,
            Expected::Uri => "the URI line of a variant stream"@,
        }
    }

    /// What was needed, in words.
    pub fn describe(&self) -> (words: String)
        ensures
            words@ == self.phrase(),
    {
        match self {
            Expected::Hash => String::from_str("'#' to start a tag"),
            Expected::TagName => String::from_str("the name of a tag"),
            Expected::Equals => String::from_str("'=' after an attribute key"),
            Expected::Value => String::from_str("an attribute value"),
            Expected::OpeningQuote => String::from_str("an opening quote"),
            Expected::QuotedText => String::from_str("text between quotes"),
            Expected::ClosingQuote => String::from_str("a closing quote"),
            Expected::Uri => String::from_str("the URI line of a variant stream"),
        }
    }
}

impl Failure {
    /// The failure as a sentence: what was needed, and where.
    pub open spec fn message(self) -> Seq<char> {
        "expected "@ + self.expected.phrase() + " at character "@ + digits_of(self.at as nat)
    }
}

impl ParseFailure {
    /// The failure as a sentence: what was needed, and where.
    pub fn describe(&self) -> (sentence: String)
        ensures
            sentence@ == self@.message(),
    {
        let mut sentence = String::from_str("expected ");
        sentence.append(self.expected.describe().as_str());
        sentence.append(" at character ");
        sentence.append(render_unsigned(self.at).as_str());
        sentence
    }
}

impl View for ParseFailure {
    type V = Failure;

    open spec fn view(&self) -> Failure {
        Failure { at: self.at as int, expected: self.expected }
    }
}

/// An unquoted value starts at `i` and runs up to the next `,` or line feed,
/// or to the end of the input. It has at least one character. The separator
/// characters that follow it are stepped over.
pub open spec fn value_rule(s: Seq<char>, i: int) -> Result<(Seq<char>, int), Failure> {
    let end = first_of(s, i, ',', '\n');
    if end <= i || i >= s.len() {
        Err(Failure { at: i, expected: Expected::Value })
    } else {
        Ok((s.subrange(i, end), skip_spaces(s, end)))
    }
}

/// A quoted value is a `"` at `i`, at least one character other than `"`,
/// and the closing `"`. The quotes are not part of the value. The separator
/// characters that follow the closing quote are stepped over.
pub open spec fn quoted_value_rule(s: Seq<char>, i: int) -> Result<(Seq<char>, int), Failure> {
    if !(0 <= i < s.len() && s[i] == '"') {
        Err(Failure { at: i, expected: Expected::OpeningQuote })
    } else {
        let end = first_of(s, i + 1, '"', '"');
        if end == i + 1 {
            Err(Failure { at: end, expected: Expected::QuotedText })
        } else if end >= s.len() {
            Err(Failure { at: end, expected: Expected::ClosingQuote })
        } else {
            Ok((s.subrange(i + 1, end), skip_spaces(s, end + 1)))
        }
    }
}

/// The value of an attribute: a quoted value where one can be read at `i`,
/// an unquoted value otherwise.
pub open spec fn attribute_value_rule(s: Seq<char>, i: int) -> Result<(Seq<char>, int), Failure> {
    match quoted_value_rule(s, i) {
        Ok(found) => Ok(found),
        Err(_) => value_rule(s, i),
    }
}

/// One `KEY=VALUE` pair: the key is everything from `i` up to the next `=`,
/// the value follows the `=`.
pub open spec fn attribute_pair_rule(s: Seq<char>, i: int) -> Result<
    ((Seq<char>, Seq<char>), int),
    Failure,
> {
    let eq = first_of(s, i, '=', '=');
    if i < 0 || eq >= s.len() {
        Err(Failure { at: i, expected: Expected::Equals })
    } else {
        match attribute_value_rule(s, eq + 1) {
            Ok((value, next)) => Ok(((s.subrange(i, eq), value), next)),
            Err(failure) => Err(failure),
        }
    }
}

/// A pair that parses ends after its start and within the input.
pub proof fn lemma_attribute_pair_advances(s: Seq<char>, i: int)
    requires
        0 <= i <= s.len(),
    ensures
        match attribute_pair_rule(s, i) {
            Ok((_, next)) => i < next <= s.len(),
            Err(failure) => i <= failure.at <= s.len(),
        },
{
    lemma_first_of_bounds(s, i, '=', '=');
    let eq = first_of(s, i, '=', '=');
    if eq < s.len() {
        lemma_attribute_value_advances(s, eq + 1);
    }
}

/// A value that parses ends after its start and within the input.
pub proof fn lemma_attribute_value_advances(s: Seq<char>, i: int)
    requires
        0 <= i <= s.len(),
    ensures
        match attribute_value_rule(s, i) {
            Ok((_, next)) => i < next <= s.len(),
            Err(failure) => failure.at == i,
        },
        match value_rule(s, i) {
            Ok((_, next)) => i < next <= s.len(),
            Err(failure) => failure.at == i,
        },
        match quoted_value_rule(s, i) {
            Ok((_, next)) => i < next <= s.len(),
            Err(failure) => i <= failure.at <= s.len(),
        },
{
    lemma_first_of_bounds(s, i, ',', '\n');
    lemma_skip_spaces_bounds(s, first_of(s, i, ',', '\n'));
    if i < s.len() {
        lemma_first_of_bounds(s, i + 1, '"', '"');
        let end = first_of(s, i + 1, '"', '"');
        if end < s.len() {
            lemma_skip_spaces_bounds(s, end + 1);
        }
    }
}

/// Reads an unquoted value at `start`.
pub fn value(input: &[char], start: usize) -> (r: Result<(String, usize), ParseFailure>)
    ensures
        match (r, value_rule(input@, start as int)) {
            (Ok((text, next)), Ok((value, position))) => text@ == value && next == position,
            (Err(e), Err(failure)) => e@ == failure,
            _ => false,
        },
{
    let end = find_either(input, start, ',', '\n');
    if end == start {
        return Err(ParseFailure { at: start, expected: Expected::Value });
    }
    let text = string_of(input, start, end);
    let next = skip_whitespace(input, end);
    Ok((text, next))
}

/// Reads a quoted value at `start`.
pub fn quoted_value(input: &[char], start: usize) -> (r: Result<(String, usize), ParseFailure>)
    ensures
        match (r, quoted_value_rule(input@, start as int)) {
            (Ok((text, next)), Ok((value, position))) => text@ == value && next == position,
            (Err(e), Err(failure)) => e@ == failure,
            _ => false,
        },
{
    if start >= input.len() || input[start] != '"' {
        return Err(ParseFailure { at: start, expected: Expected::OpeningQuote });
    }
    let end = find_either(input, start + 1, '"', '"');
    if end == start + 1 {
        return Err(ParseFailure { at: end, expected: Expected::QuotedText });
    }
    if end >= input.len() {
        return Err(ParseFailure { at: end, expected: Expected::ClosingQuote });
    }
    let text = string_of(input, start + 1, end);
    let next = skip_whitespace(input, end + 1);
    Ok((text, next))
}

/// Reads the value of an attribute at `start`: quoted where that can be
/// read, unquoted otherwise.
pub fn attribute_value(input: &[char], start: usize) -> (r: Result<(String, usize), ParseFailure>)
    ensures
        match (r, attribute_value_rule(input@, start as int)) {
            (Ok((text, next)), Ok((value, position))) => text@ == value && next == position,
            (Err(e), Err(failure)) => e@ == failure,
            _ => false,
        },
{
    match quoted_value(input, start) {
        Ok(found) => Ok(found),
        Err(_) => value(input, start),
    }
}

/// Reads one `KEY=VALUE` pair at `start`.
pub fn attribute_pair(input: &[char], start: usize) -> (r: Result<
    ((String, String), usize),
    ParseFailure,
>)
    ensures
        match (r, attribute_pair_rule(input@, start as int)) {
            (Ok(((key, value), next)), Ok(((k, v), position))) => key@ == k && value@ == v && next
                == position,
            (Err(e), Err(failure)) => e@ == failure,
            _ => false,
        },
{
    let eq = find_either(input, start, '=', '=');
    if eq >= input.len() {
        return Err(ParseFailure { at: start, expected: Expected::Equals });
    }
    let key = string_of(input, start, eq);
    let (value, next) = attribute_value(input, eq + 1)?;
    Ok(((key, value), next))
}

/// A list of pairs separated by `,`: one pair at least, and a pair after
/// every `,`.
pub open spec fn attribute_list_rule(s: Seq<char>, i: int) -> Result<
    (Seq<(Seq<char>, Seq<char>)>, int),
    Failure,
>
    decreases s.len() - i,
{
    match attribute_pair_rule(s, i) {
        Err(failure) => Err(failure),
        Ok((pair, next)) => {
            if next < s.len() && s[next] == ',' {
                proof {
                    if 0 <= i <= s.len() {
                        lemma_attribute_pair_advances(s, i);
                    }
                }
                match attribute_list_rule(s, next + 1) {
                    Ok((rest, end)) => Ok((seq![pair] + rest, end)),
                    Err(failure) => Err(failure),
                }
            } else {
                Ok((seq![pair], next))
            }
        },
    }
}

/// The pairs `before` put in front of what a list rule found.
pub open spec fn with_pairs_before(
    before: Seq<(Seq<char>, Seq<char>)>,
    found: Result<(Seq<(Seq<char>, Seq<char>)>, int), Failure>,
) -> Result<(Seq<(Seq<char>, Seq<char>)>, int), Failure> {
    match found {
        Ok((rest, end)) => Ok((before + rest, end)),
        Err(failure) => Err(failure),
    }
}

/// A list that parses ends after its start and within the input.
pub proof fn lemma_attribute_list_advances(s: Seq<char>, i: int)
    requires
        0 <= i <= s.len(),
    ensures
        match attribute_list_rule(s, i) {
            Ok((pairs, end)) => i < end <= s.len() && pairs.len() >= 1,
            Err(failure) => i <= failure.at <= s.len(),
        },
    decreases s.len() - i,
{
    lemma_attribute_pair_advances(s, i);
    match attribute_pair_rule(s, i) {
        Err(_) => {},
        Ok((_, next)) => {
            if next < s.len() && s[next] == ',' {
                lemma_attribute_list_advances(s, next + 1);
            }
        },
    }
}

/// Reads a list of pairs at `start` into a mapping. Where a key occurs more
/// than once, its last value stays.
pub fn attribute_list(input: &[char], start: usize) -> (r: Result<
    (Attributes, usize),
    ParseFailure,
>)
    ensures
        match (r, attribute_list_rule(input@, start as int)) {
            (Ok((attributes, next)), Ok((pairs, end))) => attributes@ == pairs_to_map(pairs)
                && next == end,
            (Err(e), Err(failure)) => e@ == failure,
            _ => false,
        },
{
    if start > input.len() {
        return Err(ParseFailure { at: start, expected: Expected::Equals });
    }
    let mut attributes = Attributes::new();
    let mut at: usize = start;
    let ghost mut read: Seq<(Seq<char>, Seq<char>)> = Seq::empty();
    loop
        invariant
            start <= at <= input@.len(),
            attributes@ == pairs_to_map(read),
            attribute_list_rule(input@, start as int) == with_pairs_before(
                read,
                attribute_list_rule(input@, at as int),
            ),
        decreases input@.len() - at,
    {
        let ((key, value), next) = attribute_pair(input, at)?;
        proof {
            lemma_attribute_pair_advances(input@, at as int);
        }
        let ghost pair = (key@, value@);
        attributes.insert(key, value);
        proof {
            assert(read.push(pair).drop_last() =~= read);
        }
        if next < input.len() && input[next] == ',' {
            proof {
                match attribute_list_rule(input@, next + 1) {
                    Ok((rest, end)) => {
                        assert(read + (seq![pair] + rest) =~= read.push(pair) + rest);
                    },
                    Err(_) => {},
                }
                read = read.push(pair);
            }
            at = next + 1;
        } else {
            proof {
                assert(read + seq![pair] =~= read.push(pair));
            }
            return Ok((attributes, next));
        }
    }
}

/// The attributes of a tag: none where no `:` stands at `i`, the list that
/// follows the `:` otherwise.
pub open spec fn attributes_rule(s: Seq<char>, i: int) -> Result<
    (Map<Seq<char>, Seq<char>>, int),
    Failure,
> {
    if 0 <= i < s.len() && s[i] == ':' {
        match attribute_list_rule(s, i + 1) {
            Ok((pairs, end)) => Ok((pairs_to_map(pairs), end)),
            Err(failure) => Err(failure),
        }
    } else {
        Ok((Map::empty(), i))
    }
}

/// Reads the attributes of a tag at `start`, the position after its name.
pub fn attributes(input: &[char], start: usize) -> (r: Result<(Attributes, usize), ParseFailure>)
    ensures
        match (r, attributes_rule(input@, start as int)) {
            (Ok((attributes, next)), Ok((mapping, end))) => attributes@ == mapping && next == end,
            (Err(e), Err(failure)) => e@ == failure,
            _ => false,
        },
{
    if start < input.len() && input[start] == ':' {
        attribute_list(input, start + 1)
    } else {
        Ok((Attributes::new(), start))
    }
}

/// The name of a tag: a `#` at `i`, then everything up to the next `:` or
/// line feed, at least one character.
pub open spec fn tag_name_rule(s: Seq<char>, i: int) -> Result<(Seq<char>, int), Failure> {
    if !(0 <= i < s.len() && s[i] == '#') {
        Err(Failure { at: i, expected: Expected::Hash })
    } else {
        let end = first_of(s, i + 1, ':', '\n');
        if end == i + 1 {
            Err(Failure { at: end, expected: Expected::TagName })
        } else {
            Ok((s.subrange(i + 1, end), end))
        }
    }
}

/// Reads the name of a tag at `start`.
pub fn tag_name(input: &[char], start: usize) -> (r: Result<(String, usize), ParseFailure>)
    ensures
        match (r, tag_name_rule(input@, start as int)) {
            (Ok((text, next)), Ok((name, end))) => text@ == name && next == end,
            (Err(e), Err(failure)) => e@ == failure,
            _ => false,
        },
{
    if start >= input.len() || input[start] != '#' {
        return Err(ParseFailure { at: start, expected: Expected::Hash });
    }
    let end = find_either(input, start + 1, ':', '\n');
    if end == start + 1 {
        return Err(ParseFailure { at: end, expected: Expected::TagName });
    }
    Ok((string_of(input, start + 1, end), end))
}

/// A tag without a URI line: its name, then its attributes.
pub open spec fn tag_and_attributes_rule(s: Seq<char>, i: int) -> Result<
    ((Seq<char>, Map<Seq<char>, Seq<char>>), int),
    Failure,
> {
    match tag_name_rule(s, i) {
        Err(failure) => Err(failure),
        Ok((name, after_name)) => match attributes_rule(s, after_name) {
            Err(failure) => Err(failure),
            Ok((mapping, end)) => Ok(((name, mapping), end)),
        },
    }
}

/// Reads a tag without a URI line at `start`.
pub fn tag_and_attributes(input: &[char], start: usize) -> (r: Result<
    ((String, Attributes), usize),
    ParseFailure,
>)
    ensures
        match (r, tag_and_attributes_rule(input@, start as int)) {
            (Ok(((name, attributes), next)), Ok(((n, mapping), end))) => name@ == n
                && attributes@ == mapping && next == end,
            (Err(e), Err(failure)) => e@ == failure,
            _ => false,
        },
{
    let (name, after_name) = tag_name(input, start)?;
    let (found, end) = attributes(input, after_name)?;
    Ok(((name, found), end))
}

/// The URI line of a variant stream: an unquoted value that does not start
/// with `#`.
pub open spec fn uri_rule(s: Seq<char>, i: int) -> Result<(Seq<char>, int), Failure> {
    match value_rule(s, i) {
        Ok((text, next)) => if text[0] == '#' {
            Err(Failure { at: i, expected: Expected::Uri })
        } else {
            Ok((text, next))
        },
        Err(_) => Err(Failure { at: i, expected: Expected::Uri }),
    }
}

/// Reads the URI line of a variant stream at `start`.
pub fn uri(input: &[char], start: usize) -> (r: Result<(String, usize), ParseFailure>)
    ensures
        match (r, uri_rule(input@, start as int)) {
            (Ok((text, next)), Ok((value, end))) => text@ == value && next == end,
            (Err(e), Err(failure)) => e@ == failure,
            _ => false,
        },
{
    if start < input.len() && input[start] == '#' {
        proof {
            lemma_first_of_bounds(input@, start as int, ',', '\n');
        }
        return Err(ParseFailure { at: start, expected: Expected::Uri });
    }
    match value(input, start) {
        Ok(found) => {
            proof {
                lemma_first_of_bounds(input@, start as int, ',', '\n');
            }
            Ok(found)
        },
        Err(_) => Err(ParseFailure { at: start, expected: Expected::Uri }),
    }
}

/// A tag with a URI line: its name, its attributes, and, after any separator
/// characters, the URI, which joins the attributes under the key `URI`.
pub open spec fn variant_stream_rule(s: Seq<char>, i: int) -> Result<
    ((Seq<char>, Map<Seq<char>, Seq<char>>), int),
    Failure,
> {
    match tag_and_attributes_rule(s, i) {
        Err(failure) => Err(failure),
        Ok(((name, mapping), after)) => match uri_rule(s, skip_spaces(s, after)) {
            Err(failure) => Err(failure),
            Ok((address, end)) => Ok(((name, mapping.insert("URI"@, address)), end)),
        },
    }
}

/// A tag that parses ends after its start and within the input.
pub proof fn lemma_tag_and_attributes_advances(s: Seq<char>, i: int)
    requires
        0 <= i <= s.len(),
    ensures
        match tag_and_attributes_rule(s, i) {
            Ok((_, end)) => i < end <= s.len(),
            Err(failure) => i <= failure.at <= s.len(),
        },
        match variant_stream_rule(s, i) {
            Ok((_, end)) => i < end <= s.len(),
            Err(failure) => i <= failure.at <= s.len(),
        },
{
    if i < s.len() {
        lemma_first_of_bounds(s, i + 1, ':', '\n');
        let after_name = first_of(s, i + 1, ':', '\n');
        if after_name < s.len() {
            lemma_attribute_list_advances(s, after_name + 1);
        }
        match tag_and_attributes_rule(s, i) {
            Ok((_, after)) => {
                lemma_skip_spaces_bounds(s, after);
                lemma_attribute_value_advances(s, skip_spaces(s, after));
            },
            Err(_) => {},
        }
    }
}

/// Reads a tag with a URI line at `start`.
pub fn variant_stream(input: &[char], start: usize) -> (r: Result<
    ((String, Attributes), usize),
    ParseFailure,
>)
    ensures
        match (r, variant_stream_rule(input@, start as int)) {
            (Ok(((name, attributes), next)), Ok(((n, mapping), end))) => name@ == n
                && attributes@ == mapping && next == end,
            (Err(e), Err(failure)) => e@ == failure,
            _ => false,
        },
{
    let ((name, mut found), after) = tag_and_attributes(input, start)?;
    proof {
        lemma_tag_and_attributes_advances(input@, start as int);
    }
    let line = skip_whitespace(input, after);
    let (address, end) = uri(input, line)?;
    found.insert(String::from_str("URI"), address);
    Ok(((name, found), end))
}

/// One record of a playlist. The tag named `EXT-X-STREAM-INF` has a URI
/// line; no other tag has one.
pub open spec fn tag_rule(s: Seq<char>, i: int) -> Result<
    ((Seq<char>, Map<Seq<char>, Seq<char>>), int),
    Failure,
> {
    match tag_name_rule(s, i) {
        Err(failure) => Err(failure),
        Ok((name, _)) => if name == "EXT-X-STREAM-INF"@ {
            variant_stream_rule(s, i)
        } else {
            tag_and_attributes_rule(s, i)
        },
    }
}

/// Reads one record at `start`.
pub fn tag(input: &[char], start: usize) -> (r: Result<((String, Attributes), usize), ParseFailure>)
    ensures
        match (r, tag_rule(input@, start as int)) {
            (Ok(((name, attributes), next)), Ok(((n, mapping), end))) => name@ == n
                && attributes@ == mapping && next == end,
            (Err(e), Err(failure)) => e@ == failure,
            _ => false,
        },
{
    let (name, _) = tag_name(input, start)?;
    if same_text(name.as_str(), "EXT-X-STREAM-INF") {
        variant_stream(input, start)
    } else {
        tag_and_attributes(input, start)
    }
}

/// The records from `i` to the end of the input, separator characters
/// between them stepped over: one record at least, and nothing that is not
/// a record.
pub open spec fn records_rule(s: Seq<char>, i: int) -> Result<
    Seq<(Seq<char>, Map<Seq<char>, Seq<char>>)>,
    Failure,
>
    decreases s.len() - i,
{
    match tag_rule(s, i) {
        Err(failure) => Err(failure),
        Ok((record, after)) => {
            let next = skip_spaces(s, after);
            if next < s.len() {
                proof {
                    if 0 <= i <= s.len() {
                        lemma_tag_and_attributes_advances(s, i);
                        lemma_skip_spaces_bounds(s, after);
                    }
                }
                match records_rule(s, next) {
                    Ok(rest) => Ok(seq![record] + rest),
                    Err(failure) => Err(failure),
                }
            } else {
                Ok(seq![record])
            }
        },
    }
}

/// A whole playlist: separator characters, then records to the end of the
/// input.
pub open spec fn master_playlist_rule(s: Seq<char>) -> Result<
    Seq<(Seq<char>, Map<Seq<char>, Seq<char>>)>,
    Failure,
> {
    records_rule(s, skip_spaces(s, 0))
}

/// The records `before` put in front of what a records rule found.
pub open spec fn with_records_before(
    before: Seq<(Seq<char>, Map<Seq<char>, Seq<char>>)>,
    found: Result<Seq<(Seq<char>, Map<Seq<char>, Seq<char>>)>, Failure>,
) -> Result<Seq<(Seq<char>, Map<Seq<char>, Seq<char>>)>, Failure> {
    match found {
        Ok(rest) => Ok(before + rest),
        Err(failure) => Err(failure),
    }
}

/// Each record as its name and its mapping, both as text.
pub open spec fn record_texts(records: Seq<(String, Attributes)>) -> Seq<
    (Seq<char>, Map<Seq<char>, Seq<char>>),
> {
    records.map_values(|record: (String, Attributes)| (record.0@, record.1@))
}

/// Reads a whole playlist: its records in the order of the document.
pub fn master_playlist(input: &[char]) -> (r: Result<Vec<(String, Attributes)>, ParseFailure>)
    ensures
        match (r, master_playlist_rule(input@)) {
            (Ok(records), Ok(found)) => record_texts(records@) == found,
            (Err(e), Err(failure)) => e@ == failure,
            _ => false,
        },
{
    let first = skip_whitespace(input, 0);
    let mut records: Vec<(String, Attributes)> = Vec::new();
    let mut at: usize = first;
    loop
        invariant
            first == skip_spaces(input@, 0),
            first <= at <= input@.len(),
            records_rule(input@, first as int) == with_records_before(
                record_texts(records@),
                records_rule(input@, at as int),
            ),
        decreases input@.len() - at,
    {
        let (record, after) = tag(input, at)?;
        proof {
            lemma_tag_and_attributes_advances(input@, at as int);
        }
        let ghost before = record_texts(records@);
        let ghost found = (record.0@, record.1@);
        records.push(record);
        proof {
            assert(record_texts(records@) =~= before.push(found));
        }
        let next = skip_whitespace(input, after);
        if next < input.len() {
            proof {
                match records_rule(input@, next as int) {
                    Ok(rest) => {
                        assert(before + (seq![found] + rest) =~= before.push(found) + rest);
                    },
                    Err(_) => {},
                }
            }
            at = next;
        } else {
            return Ok(records);
        }
    }
}

} // verus!
