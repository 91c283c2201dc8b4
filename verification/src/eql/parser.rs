//! The EQL parser. The grammar, over whitespace-separated words (whitespace
//! being space, tab, line feed and carriage return; keywords compared
//! without regard to ASCII case, tier names by their Unicode upper-case form):
//!
//! ```text
//! statement := WRITE id TIER tier payload
//!            | READ id
//!            | LIST [TIER tier]
//!            | DELETE id
//!            | AUDIT [id]
//! tier      := CRITICAL | PERSONAL | NOISE
//! ```
//!
//! An id is one word; the payload is the rest of the input after the tier,
//! without its trailing whitespace. Leading and trailing whitespace of the
//! input is ignored. Syntax is checked before the tier name is resolved.

use vstd::prelude::*;

use super::ast::{tier_name, Statement, StatementView, Tier};
use crate::text::text_eq;

verus! {

broadcast use vstd::string::group_string_axioms;

/// What the parser expected where it stopped.
#[derive(Debug, Clone, Copy, PartialEq, Eq, Structural)]
pub enum Expected {
    Keyword,
    Identifier,
    TierKeyword,
    TierName,
    Payload,
    EndOfInput,
}

/// Why a statement does not parse.
#[derive(Debug, Clone, PartialEq)]
pub enum ParseError {
    /// The input does not follow the grammar: what was expected at which
    /// character position.
    Syntax { at: usize, expected: Expected },
    /// A tier name that is none of the three tiers, upper-cased.
    UnknownTier(String),
}

/// The mathematical value of a parse error.
pub enum ParseErrorView {
    Syntax { at: int, expected: Expected },
    UnknownTier(Seq<char>),
}

impl View for ParseError {
    type V = ParseErrorView;

    open spec fn view(&self) -> ParseErrorView {
        match self {
            ParseError::Syntax { at, expected } => ParseErrorView::Syntax { at: *at as int, expected: *expected },
            ParseError::UnknownTier(s) => ParseErrorView::UnknownTier(s@),
        }
    }
}

/// The whitespace that separates words.
pub open spec fn is_ws(c: char) -> bool {
    c == ' ' || c == '\t' || c == '\n' || c == '\r'
}

/// The first position at or after `i` that is not whitespace.
pub open spec fn skip_ws(s: Seq<char>, i: int) -> int
    decreases s.len() - i,
{
    if 0 <= i < s.len() && is_ws(s[i]) {
        skip_ws(s, i + 1)
    } else {
        i
    }
}

/// The first position at or after `i` that is whitespace (or the end).
pub open spec fn word_end(s: Seq<char>, i: int) -> int
    decreases s.len() - i,
{
    if 0 <= i < s.len() && !is_ws(s[i]) {
        word_end(s, i + 1)
    } else {
        i
    }
}

/// The end of the input once trailing whitespace before `j` is dropped.
pub open spec fn trimmed_end(s: Seq<char>, j: int) -> int
    decreases j,
{
    if 0 < j <= s.len() && is_ws(s[j - 1]) {
        trimmed_end(s, j - 1)
    } else {
        j
    }
}

/// ASCII upper case of one character.
pub open spec fn ascii_upper_char(c: char) -> char {
    if 'a' <= c && c <= 'z' {
        ((c as u32) - 32) as char
    } else {
        c
    }
}

/// ASCII upper case of a string: other characters are kept.
pub open spec fn ascii_upper(s: Seq<char>) -> Seq<char> {
    s.map_values(|c: char| ascii_upper_char(c))
}

/// The tier a word names: the one whose name is its Unicode upper-case form.
pub open spec fn tier_named(w: Seq<char>) -> Option<Tier> {
    let u = uppercase_of(w);
    if u == "CRITICAL"@ {
        Some(Tier::Critical)
    } else if u == "PERSONAL"@ {
        Some(Tier::Personal)
    } else if u == "NOISE"@ {
        Some(Tier::Noise)
    } else {
        None
    }
}

/// The word that starts at `i`.
pub open spec fn word_at(s: Seq<char>, i: int) -> Seq<char> {
    s.subrange(i, word_end(s, i))
}

/// A syntax error at `at`.
pub open spec fn syntax(at: int, expected: Expected) -> ParseErrorView {
    ParseErrorView::Syntax { at, expected }
}

/// One identifier after `from`, then the end of the input.
pub open spec fn id_then_end(s: Seq<char>, from: int) -> Result<Seq<char>, ParseErrorView> {
    let i = skip_ws(s, from);
    let e = word_end(s, i);
    let j = skip_ws(s, e);
    if i >= s.len() {
        Err(syntax(i, Expected::Identifier))
    } else if j < s.len() {
        Err(syntax(j, Expected::EndOfInput))
    } else {
        Ok(s.subrange(i, e))
    }
}

/// The rest of a WRITE statement after its keyword, which ends at `e0`.
pub open spec fn parse_write_spec(s: Seq<char>, e0: int) -> Result<StatementView, ParseErrorView> {
    let i1 = skip_ws(s, e0);
    let e1 = word_end(s, i1);
    let i2 = skip_ws(s, e1);
    let e2 = word_end(s, i2);
    let i3 = skip_ws(s, e2);
    let e3 = word_end(s, i3);
    let i4 = skip_ws(s, e3);
    if i1 >= s.len() {
        Err(syntax(i1, Expected::Identifier))
    } else if ascii_upper(s.subrange(i2, e2)) != "TIER"@ {
        Err(syntax(i2, Expected::TierKeyword))
    } else if i3 >= s.len() {
        Err(syntax(i3, Expected::TierName))
    } else if i4 >= s.len() {
        Err(syntax(i4, Expected::Payload))
    } else {
        match tier_named(s.subrange(i3, e3)) {
            Some(t) => Ok(
                StatementView::Write {
                    id: s.subrange(i1, e1),
                    tier: t,
                    payload: s.subrange(i4, trimmed_end(s, s.len() as int)),
                },
            ),
            None => Err(ParseErrorView::UnknownTier(uppercase_of(s.subrange(i3, e3)))),
        }
    }
}

/// The rest of a LIST statement after its keyword, which ends at `e0`.
pub open spec fn parse_list_spec(s: Seq<char>, e0: int) -> Result<StatementView, ParseErrorView> {
    let i1 = skip_ws(s, e0);
    let e1 = word_end(s, i1);
    let i2 = skip_ws(s, e1);
    let e2 = word_end(s, i2);
    let i3 = skip_ws(s, e2);
    if i1 >= s.len() {
        Ok(StatementView::List { tier: None })
    } else if ascii_upper(s.subrange(i1, e1)) != "TIER"@ {
        Err(syntax(i1, Expected::TierKeyword))
    } else if i2 >= s.len() {
        Err(syntax(i2, Expected::TierName))
    } else if i3 < s.len() {
        Err(syntax(i3, Expected::EndOfInput))
    } else {
        match tier_named(s.subrange(i2, e2)) {
            Some(t) => Ok(StatementView::List { tier: Some(t) }),
            None => Err(ParseErrorView::UnknownTier(uppercase_of(s.subrange(i2, e2)))),
        }
    }
}

/// The rest of an AUDIT statement after its keyword, which ends at `e0`.
pub open spec fn parse_audit_spec(s: Seq<char>, e0: int) -> Result<StatementView, ParseErrorView> {
    let i1 = skip_ws(s, e0);
    let e1 = word_end(s, i1);
    let i2 = skip_ws(s, e1);
    if i1 >= s.len() {
        Ok(StatementView::Audit { id: None })
    } else if i2 < s.len() {
        Err(syntax(i2, Expected::EndOfInput))
    } else {
        Ok(StatementView::Audit { id: Some(s.subrange(i1, e1)) })
    }
}

/// The statement (or the error) that the grammar gives for `s`.
pub open spec fn parse_spec(s: Seq<char>) -> Result<StatementView, ParseErrorView> {
    let i0 = skip_ws(s, 0);
    let e0 = word_end(s, i0);
    let kw = ascii_upper(s.subrange(i0, e0));
    if kw == "WRITE"@ {
        parse_write_spec(s, e0)
    } else if kw == "READ"@ {
        match id_then_end(s, e0) {
            Ok(id) => Ok(StatementView::Read { id }),
            Err(e) => Err(e),
        }
    } else if kw == "LIST"@ {
        parse_list_spec(s, e0)
    } else if kw == "DELETE"@ {
        match id_then_end(s, e0) {
            Ok(id) => Ok(StatementView::Delete { id }),
            Err(e) => Err(e),
        }
    } else if kw == "AUDIT"@ {
        parse_audit_spec(s, e0)
    } else {
        Err(syntax(i0, Expected::Keyword))
    }
}

/// What `str::to_uppercase` makes of a text.
pub uninterp spec fn uppercase_of(s: Seq<char>) -> Seq<char>;

/// Calls `str::to_uppercase` (Unicode upper-case mapping, by which tier names
/// are resolved). Claimed: the result depends on the text alone; the mapping
/// itself is left unsaid.
#[verifier::external_body]
fn to_uppercase(s: &str) -> (r: String)
    ensures
        r@ == uppercase_of(s@),
{
    s.to_uppercase()
}

/// Calls `str::to_ascii_uppercase`, which maps `a`..`z` to `A`..`Z` and keeps
/// every other character.
#[verifier::external_body]
fn ascii_uppercase(s: &str) -> (r: String)
    ensures
        r@ == ascii_upper(s@),
{
    s.to_ascii_uppercase()
}

/// The characters of `s`.
fn chars_of(s: &str) -> (v: Vec<char>)
    ensures
        v@ == s@,
{
    let n = s.unicode_len();
    let mut v: Vec<char> = Vec::new();
    let mut i: usize = 0;
    while i < n
        invariant
            n == s@.len(),
            i <= n,
            v@ == s@.take(i as int),
        decreases n - i,
    {
        v.push(s.get_char(i));
        i = i + 1;
        assert(v@ =~= s@.take(i as int));
    }
    assert(s@.take(n as int) =~= s@);
    v
}

fn is_ws_char(c: char) -> (r: bool)
    ensures
        r == is_ws(c),
{
    c == ' ' || c == '\t' || c == '\n' || c == '\r'
}

fn skip_ws_from(cs: &Vec<char>, i: usize) -> (j: usize)
    requires
        i <= cs@.len(),
    ensures
        j == skip_ws(cs@, i as int),
        i <= j <= cs@.len(),
        j < cs@.len() ==> !is_ws(cs@[j as int]),
{
    let mut j = i;
    while j < cs.len() && is_ws_char(cs[j])
        invariant
            i <= j <= cs@.len(),
            skip_ws(cs@, j as int) == skip_ws(cs@, i as int),
        decreases cs@.len() - j,
    {
        j = j + 1;
    }
    j
}

fn word_end_from(cs: &Vec<char>, i: usize) -> (j: usize)
    requires
        i <= cs@.len(),
    ensures
        j == word_end(cs@, i as int),
        i <= j <= cs@.len(),
{
    let mut j = i;
    while j < cs.len() && !is_ws_char(cs[j])
        invariant
            i <= j <= cs@.len(),
            word_end(cs@, j as int) == word_end(cs@, i as int),
        decreases cs@.len() - j,
    {
        j = j + 1;
    }
    j
}

fn trimmed_end_of(cs: &Vec<char>) -> (j: usize)
    ensures
        j == trimmed_end(cs@, cs@.len() as int),
        j <= cs@.len(),
{
    let mut j = cs.len();
    while j > 0 && is_ws_char(cs[j - 1])
        invariant
            j <= cs@.len(),
            trimmed_end(cs@, j as int) == trimmed_end(cs@, cs@.len() as int),
        decreases j,
    {
        j = j - 1;
    }
    j
}

/// The word of `input` between `i` and `e`, as a string.
fn piece(input: &str, i: usize, e: usize) -> (r: String)
    requires
        i <= e <= input@.len(),
    ensures
        r@ == input@.subrange(i as int, e as int),
{
    input.substring_char(i, e).to_owned()
}

/// Whether the word of `input` between `i` and `e` is `kw` in any ASCII case.
fn word_is(input: &str, i: usize, e: usize, kw: &str) -> (r: bool)
    requires
        i <= e <= input@.len(),
    ensures
        r == (ascii_upper(input@.subrange(i as int, e as int)) == kw@),
{
    let upper = ascii_uppercase(input.substring_char(i, e));
    text_eq(upper.as_str(), kw)
}

/// The tier a word of `input` names.
fn tier_of(input: &str, i: usize, e: usize) -> (r: Result<Tier, ParseError>)
    requires
        i <= e <= input@.len(),
    ensures
        match tier_named(input@.subrange(i as int, e as int)) {
            Some(t) => r == Ok::<Tier, ParseError>(t),
            None => r matches Err(err) && err@ == ParseErrorView::UnknownTier(
                uppercase_of(input@.subrange(i as int, e as int)),
            ),
        },
{
    let upper = to_uppercase(input.substring_char(i, e));
    if text_eq(upper.as_str(), "CRITICAL") {
        Ok(Tier::Critical)
    } else if text_eq(upper.as_str(), "PERSONAL") {
        Ok(Tier::Personal)
    } else if text_eq(upper.as_str(), "NOISE") {
        Ok(Tier::Noise)
    } else {
        Err(ParseError::UnknownTier(upper))
    }
}

/// One identifier after `from`, then the end of the input.
fn id_then_end_exec(input: &str, cs: &Vec<char>, from: usize) -> (r: Result<String, ParseError>)
    requires
        cs@ == input@,
        from <= cs@.len(),
    ensures
        match id_then_end(input@, from as int) {
            Ok(id) => r matches Ok(s) && s@ == id,
            Err(e) => r matches Err(err) && err@ == e,
        },
{
    let i = skip_ws_from(cs, from);
    let e = word_end_from(cs, i);
    let j = skip_ws_from(cs, e);
    if i >= cs.len() {
        Err(ParseError::Syntax { at: i, expected: Expected::Identifier })
    } else if j < cs.len() {
        Err(ParseError::Syntax { at: j, expected: Expected::EndOfInput })
    } else {
        Ok(piece(input, i, e))
    }
}

/// Parses one EQL statement.
pub fn parse(input: &str) -> (r: Result<Statement, ParseError>)
    ensures
        match parse_spec(input@) {
            Ok(st) => r matches Ok(stmt) && stmt@ == st,
            Err(e) => r matches Err(err) && err@ == e,
        },
{
    let cs = chars_of(input);
    let n = cs.len();
    let i0 = skip_ws_from(&cs, 0);
    let e0 = word_end_from(&cs, i0);
    if word_is(input, i0, e0, "WRITE") {
        let i1 = skip_ws_from(&cs, e0);
        let e1 = word_end_from(&cs, i1);
        let i2 = skip_ws_from(&cs, e1);
        let e2 = word_end_from(&cs, i2);
        let i3 = skip_ws_from(&cs, e2);
        let e3 = word_end_from(&cs, i3);
        let i4 = skip_ws_from(&cs, e3);
        if i1 >= n {
            return Err(ParseError::Syntax { at: i1, expected: Expected::Identifier });
        }
        if !word_is(input, i2, e2, "TIER") {
            return Err(ParseError::Syntax { at: i2, expected: Expected::TierKeyword });
        }
        if i3 >= n {
            return Err(ParseError::Syntax { at: i3, expected: Expected::TierName });
        }
        if i4 >= n {
            return Err(ParseError::Syntax { at: i4, expected: Expected::Payload });
        }
        let end = trimmed_end_of(&cs);
        proof {
            assert(i4 < end) by {
                assert(!is_ws(cs@[i4 as int]));
                if end <= i4 {
                    lemma_trimmed_end_keeps(cs@, cs@.len() as int, i4 as int);
                }
            }
        }
        let tier = tier_of(input, i3, e3)?;
        let id = piece(input, i1, e1);
        let payload = piece(input, i4, end);
        Ok(Statement::Write { id, tier, payload })
    } else if word_is(input, i0, e0, "READ") {
        let id = id_then_end_exec(input, &cs, e0)?;
        Ok(Statement::Read { id })
    } else if word_is(input, i0, e0, "LIST") {
        let i1 = skip_ws_from(&cs, e0);
        let e1 = word_end_from(&cs, i1);
        let i2 = skip_ws_from(&cs, e1);
        let e2 = word_end_from(&cs, i2);
        let i3 = skip_ws_from(&cs, e2);
        if i1 >= n {
            return Ok(Statement::List { tier: None });
        }
        if !word_is(input, i1, e1, "TIER") {
            return Err(ParseError::Syntax { at: i1, expected: Expected::TierKeyword });
        }
        if i2 >= n {
            return Err(ParseError::Syntax { at: i2, expected: Expected::TierName });
        }
        if i3 < n {
            return Err(ParseError::Syntax { at: i3, expected: Expected::EndOfInput });
        }
        let tier = tier_of(input, i2, e2)?;
        Ok(Statement::List { tier: Some(tier) })
    } else if word_is(input, i0, e0, "DELETE") {
        let id = id_then_end_exec(input, &cs, e0)?;
        Ok(Statement::Delete { id })
    } else if word_is(input, i0, e0, "AUDIT") {
        let i1 = skip_ws_from(&cs, e0);
        let e1 = word_end_from(&cs, i1);
        let i2 = skip_ws_from(&cs, e1);
        if i1 >= n {
            return Ok(Statement::Audit { id: None });
        }
        if i2 < n {
            return Err(ParseError::Syntax { at: i2, expected: Expected::EndOfInput });
        }
        Ok(Statement::Audit { id: Some(piece(input, i1, e1)) })
    } else {
        Err(ParseError::Syntax { at: i0, expected: Expected::Keyword })
    }
}

/// Trimming trailing whitespace never goes below a non-whitespace position.
proof fn lemma_trimmed_end_keeps(s: Seq<char>, j: int, k: int)
    requires
        0 <= k < j <= s.len(),
        !is_ws(s[k]),
    ensures
        trimmed_end(s, j) > k,
    decreases j,
{
    if j - 1 > k && is_ws(s[j - 1]) {
        lemma_trimmed_end_keeps(s, j - 1, k);
    }
}

/// Whether `w` is one word: not empty, and no whitespace in it.
pub open spec fn is_word(w: Seq<char>) -> bool {
    w.len() > 0 && forall|i: int| 0 <= i < w.len() ==> !is_ws(#[trigger] w[i])
}

/// Whether `p` can stand as a payload: not empty, and neither starting nor
/// ending with whitespace.
pub open spec fn is_payload(p: Seq<char>) -> bool {
    p.len() > 0 && !is_ws(p[0]) && !is_ws(p.last())
}

/// Words joined by single spaces.
pub open spec fn spaced(a: Seq<char>, b: Seq<char>) -> Seq<char> {
    a + seq![' '] + b
}

proof fn lemma_word_end_run(s: Seq<char>, i: int, j: int)
    requires
        0 <= i <= j <= s.len(),
        forall|k: int| i <= k < j ==> !is_ws(#[trigger] s[k]),
        j == s.len() || is_ws(s[j]),
    ensures
        word_end(s, i) == j,
    decreases j - i,
{
    if i < j {
        lemma_word_end_run(s, i + 1, j);
    }
}

proof fn lemma_skip_one_space(s: Seq<char>, i: int)
    requires
        0 <= i < s.len(),
        s[i] == ' ',
        i + 1 == s.len() || !is_ws(s[i + 1]),
    ensures
        skip_ws(s, i) == i + 1,
{
    assert(skip_ws(s, i + 1) == i + 1);
}

/// A word whose ASCII upper-case form is a word is a word.
proof fn lemma_upper_keeps_word(w: Seq<char>, u: Seq<char>)
    requires
        ascii_upper(w) == u,
        is_word(u),
    ensures
        is_word(w),
{
    assert forall|i: int| 0 <= i < w.len() implies !is_ws(#[trigger] w[i]) by {
        assert(ascii_upper(w)[i] == ascii_upper_char(w[i]));
        assert(!is_ws(u[i]));
    }
}

proof fn lemma_keywords_are_words()
    ensures
        is_word("WRITE"@),
        is_word("READ"@),
        is_word("LIST"@),
        is_word("DELETE"@),
        is_word("AUDIT"@),
        is_word("TIER"@),
        is_word(tier_name(Tier::Critical)),
        is_word(tier_name(Tier::Personal)),
        is_word(tier_name(Tier::Noise)),
{
    reveal_strlit("WRITE");
    reveal_strlit("READ");
    reveal_strlit("LIST");
    reveal_strlit("DELETE");
    reveal_strlit("AUDIT");
    reveal_strlit("TIER");
    reveal_strlit("CRITICAL");
    reveal_strlit("PERSONAL");
    reveal_strlit("NOISE");
}

/// A tier word names the tier whose name is its upper-case form.
proof fn lemma_tier_word(w: Seq<char>, t: Tier)
    requires
        uppercase_of(w) == tier_name(t),
    ensures
        tier_named(w) == Some(t),
{
    reveal_strlit("CRITICAL");
    reveal_strlit("PERSONAL");
    reveal_strlit("NOISE");
    assert("CRITICAL"@ != "PERSONAL"@ && "CRITICAL"@ != "NOISE"@ && "PERSONAL"@ != "NOISE"@) by {
        assert("CRITICAL"@[0] != "PERSONAL"@[0]);
        assert("CRITICAL"@.len() != "NOISE"@.len());
        assert("PERSONAL"@.len() != "NOISE"@.len());
    }
}

/// Statements written as the grammar shows them parse to what they say:
/// `WRITE id TIER tier payload`, with the keywords in any ASCII case, a tier
/// word whose upper-case form is the tier's name, one space between the
/// parts, an id of one word and a payload that neither starts nor ends with
/// whitespace.
pub proof fn lemma_write_line_parses(
    kw: Seq<char>,
    id: Seq<char>,
    tier_kw: Seq<char>,
    tier_word: Seq<char>,
    t: Tier,
    payload: Seq<char>,
)
    requires
        ascii_upper(kw) == "WRITE"@,
        is_word(id),
        ascii_upper(tier_kw) == "TIER"@,
        is_word(tier_word),
        uppercase_of(tier_word) == tier_name(t),
        is_payload(payload),
    ensures
        parse_spec(spaced(spaced(spaced(spaced(kw, id), tier_kw), tier_word), payload)) == Ok::<
            StatementView,
            ParseErrorView,
        >(StatementView::Write { id, tier: t, payload }),
{
    lemma_keywords_are_words();
    lemma_upper_keeps_word(kw, "WRITE"@);
    lemma_upper_keeps_word(tier_kw, "TIER"@);
    lemma_tier_word(tier_word, t);
    let s = spaced(spaced(spaced(spaced(kw, id), tier_kw), tier_word), payload);
    let e0 = kw.len() as int;
    let i1 = e0 + 1;
    let e1 = i1 + id.len();
    let i2 = e1 + 1;
    let e2 = i2 + tier_kw.len();
    let i3 = e2 + 1;
    let e3 = i3 + tier_word.len();
    let i4 = e3 + 1;
    assert(s.len() == i4 + payload.len());
    assert(s.subrange(0, e0) =~= kw);
    assert(s.subrange(i1, e1) =~= id);
    assert(s.subrange(i2, e2) =~= tier_kw);
    assert(s.subrange(i3, e3) =~= tier_word);
    assert(s.subrange(i4, s.len() as int) =~= payload);
    assert(s[e0] == ' ' && s[e1] == ' ' && s[e2] == ' ' && s[e3] == ' ');
    assert(skip_ws(s, 0) == 0);
    lemma_word_end_run(s, 0, e0);
    lemma_skip_one_space(s, e0);
    lemma_word_end_run(s, i1, e1);
    lemma_skip_one_space(s, e1);
    lemma_word_end_run(s, i2, e2);
    lemma_skip_one_space(s, e2);
    lemma_word_end_run(s, i3, e3);
    lemma_skip_one_space(s, e3);
    assert(trimmed_end(s, s.len() as int) == s.len());
}

/// `READ id`, `DELETE id` and `AUDIT id`, keywords in any ASCII case, parse
/// to what they say.
pub proof fn lemma_id_line_parses(kw: Seq<char>, id: Seq<char>)
    requires
        ascii_upper(kw) == "READ"@ || ascii_upper(kw) == "DELETE"@ || ascii_upper(kw) == "AUDIT"@,
        is_word(id),
    ensures
        ascii_upper(kw) == "READ"@ ==> parse_spec(spaced(kw, id)) == Ok::<StatementView, ParseErrorView>(
            StatementView::Read { id },
        ),
        ascii_upper(kw) == "DELETE"@ ==> parse_spec(spaced(kw, id)) == Ok::<StatementView, ParseErrorView>(
            StatementView::Delete { id },
        ),
        ascii_upper(kw) == "AUDIT"@ ==> parse_spec(spaced(kw, id)) == Ok::<StatementView, ParseErrorView>(
            StatementView::Audit { id: Some(id) },
        ),
{
    lemma_keywords_are_words();
    lemma_upper_keeps_word(kw, ascii_upper(kw));
    lemma_keywords_differ();
    let s = spaced(kw, id);
    let e0 = kw.len() as int;
    let i1 = e0 + 1;
    let e1 = i1 + id.len();
    assert(s.len() == e1);
    assert(s.subrange(0, e0) =~= kw);
    assert(s.subrange(i1, e1) =~= id);
    assert(s[e0] == ' ');
    assert(skip_ws(s, 0) == 0);
    lemma_word_end_run(s, 0, e0);
    lemma_skip_one_space(s, e0);
    lemma_word_end_run(s, i1, e1);
    assert(skip_ws(s, e1) == e1);
}

/// `LIST` and `AUDIT` alone, in any ASCII case, parse to the statement over
/// everything.
pub proof fn lemma_bare_keyword_parses(kw: Seq<char>)
    requires
        ascii_upper(kw) == "LIST"@ || ascii_upper(kw) == "AUDIT"@,
    ensures
        ascii_upper(kw) == "LIST"@ ==> parse_spec(kw) == Ok::<StatementView, ParseErrorView>(
            StatementView::List { tier: None },
        ),
        ascii_upper(kw) == "AUDIT"@ ==> parse_spec(kw) == Ok::<StatementView, ParseErrorView>(
            StatementView::Audit { id: None },
        ),
{
    lemma_keywords_are_words();
    lemma_upper_keeps_word(kw, ascii_upper(kw));
    lemma_keywords_differ();
    let e0 = kw.len() as int;
    assert(kw.subrange(0, e0) =~= kw);
    assert(skip_ws(kw, 0) == 0);
    lemma_word_end_run(kw, 0, e0);
    assert(skip_ws(kw, e0) == e0);
}

/// `LIST TIER tier`, keywords in any ASCII case and a tier word whose
/// upper-case form is the tier's name, parses to the listing of that tier.
pub proof fn lemma_list_tier_line_parses(kw: Seq<char>, tier_kw: Seq<char>, tier_word: Seq<char>, t: Tier)
    requires
        ascii_upper(kw) == "LIST"@,
        ascii_upper(tier_kw) == "TIER"@,
        is_word(tier_word),
        uppercase_of(tier_word) == tier_name(t),
    ensures
        parse_spec(spaced(spaced(kw, tier_kw), tier_word)) == Ok::<StatementView, ParseErrorView>(
            StatementView::List { tier: Some(t) },
        ),
{
    lemma_keywords_are_words();
    lemma_upper_keeps_word(kw, "LIST"@);
    lemma_upper_keeps_word(tier_kw, "TIER"@);
    lemma_tier_word(tier_word, t);
    lemma_keywords_differ();
    let s = spaced(spaced(kw, tier_kw), tier_word);
    let e0 = kw.len() as int;
    let i1 = e0 + 1;
    let e1 = i1 + tier_kw.len();
    let i2 = e1 + 1;
    let e2 = i2 + tier_word.len();
    assert(s.len() == e2);
    assert(s.subrange(0, e0) =~= kw);
    assert(s.subrange(i1, e1) =~= tier_kw);
    assert(s.subrange(i2, e2) =~= tier_word);
    assert(s[e0] == ' ' && s[e1] == ' ');
    assert(skip_ws(s, 0) == 0);
    lemma_word_end_run(s, 0, e0);
    lemma_skip_one_space(s, e0);
    lemma_word_end_run(s, i1, e1);
    lemma_skip_one_space(s, e1);
    lemma_word_end_run(s, i2, e2);
    assert(skip_ws(s, e2) == e2);
}

proof fn lemma_keywords_differ()
    ensures
        "WRITE"@ != "READ"@,
        "WRITE"@ != "LIST"@,
        "WRITE"@ != "DELETE"@,
        "WRITE"@ != "AUDIT"@,
        "READ"@ != "LIST"@,
        "READ"@ != "DELETE"@,
        "READ"@ != "AUDIT"@,
        "LIST"@ != "DELETE"@,
        "LIST"@ != "AUDIT"@,
        "DELETE"@ != "AUDIT"@,
{
    reveal_strlit("WRITE");
    reveal_strlit("READ");
    reveal_strlit("LIST");
    reveal_strlit("DELETE");
    reveal_strlit("AUDIT");
    assert("WRITE"@[0] != "READ"@[0]);
    assert("WRITE"@[0] != "LIST"@[0]);
    assert("WRITE"@[0] != "DELETE"@[0]);
    assert("WRITE"@[0] != "AUDIT"@[0]);
    assert("READ"@[0] != "LIST"@[0]);
    assert("READ"@[0] != "DELETE"@[0]);
    assert("READ"@[0] != "AUDIT"@[0]);
    assert("LIST"@[0] != "DELETE"@[0]);
    assert("LIST"@[0] != "AUDIT"@[0]);
    assert("DELETE"@[0] != "AUDIT"@[0]);
}

proof fn lemma_word_end_spans_word(s: Seq<char>, i: int)
    requires
        0 <= i,
    ensures
        i <= word_end(s, i),
        word_end(s, i) <= s.len() || word_end(s, i) == i,
        forall|k: int| i <= k < word_end(s, i) ==> !is_ws(#[trigger] s[k]),
    decreases s.len() - i,
{
    if 0 <= i < s.len() && !is_ws(s[i]) {
        lemma_word_end_spans_word(s, i + 1);
    }
}

proof fn lemma_skip_ws_lands(s: Seq<char>, i: int)
    requires
        0 <= i,
    ensures
        i <= skip_ws(s, i),
        i <= s.len() ==> skip_ws(s, i) <= s.len(),
        skip_ws(s, i) < s.len() ==> !is_ws(s[skip_ws(s, i)]),
    decreases s.len() - i,
{
    if 0 <= i < s.len() && is_ws(s[i]) {
        lemma_skip_ws_lands(s, i + 1);
    }
}

/// The word that starts at a non-blank position is a word.
proof fn lemma_word_at(s: Seq<char>, i: int)
    requires
        0 <= i < s.len(),
        !is_ws(s[i]),
    ensures
        is_word(s.subrange(i, word_end(s, i))),
{
    lemma_word_end_spans_word(s, i);
    lemma_word_end_run_bound(s, i);
    assert(word_end(s, i) > i) by {
        assert(word_end(s, i) == word_end(s, i + 1));
        lemma_word_end_spans_word(s, i + 1);
    }
    let w = s.subrange(i, word_end(s, i));
    assert forall|k: int| 0 <= k < w.len() implies !is_ws(#[trigger] w[k]) by {
        assert(w[k] == s[i + k]);
    }
}

proof fn lemma_word_end_run_bound(s: Seq<char>, i: int)
    requires
        0 <= i <= s.len(),
    ensures
        word_end(s, i) <= s.len(),
    decreases s.len() - i,
{
    if i < s.len() && !is_ws(s[i]) {
        lemma_word_end_run_bound(s, i + 1);
    }
}

/// Every id a statement names is one word: never empty, and no whitespace
/// (no line feed in particular) in it.
pub proof fn lemma_parsed_ids_are_words(s: Seq<char>)
    ensures
        parse_spec(s) matches Ok(StatementView::Write { id, .. }) ==> is_word(id),
        parse_spec(s) matches Ok(StatementView::Read { id }) ==> is_word(id),
        parse_spec(s) matches Ok(StatementView::Delete { id }) ==> is_word(id),
        parse_spec(s) matches Ok(StatementView::Audit { id: Some(id) }) ==> is_word(id),
{
    let i0 = skip_ws(s, 0);
    lemma_skip_ws_lands(s, 0);
    lemma_word_end_run_bound(s, i0);
    let e0 = word_end(s, i0);
    lemma_word_end_spans_word(s, i0);
    lemma_skip_ws_lands(s, e0);
    let i1 = skip_ws(s, e0);
    if i1 < s.len() {
        lemma_word_at(s, i1);
    }
}

/// Whether every character of `w` is whitespace.
pub open spec fn all_ws(w: Seq<char>) -> bool {
    forall|i: int| 0 <= i < w.len() ==> is_ws(#[trigger] w[i])
}

proof fn lemma_trimmed_end_lands(s: Seq<char>, j: int)
    requires
        0 <= j <= s.len(),
    ensures
        0 <= trimmed_end(s, j) <= j,
        trimmed_end(s, j) > 0 ==> !is_ws(s[trimmed_end(s, j) - 1]),
    decreases j,
{
    if 0 < j && is_ws(s[j - 1]) {
        lemma_trimmed_end_lands(s, j - 1);
    }
}

/// A `WRITE` payload is never empty and neither starts nor ends with
/// whitespace: trailing blanks of the input never reach it.
pub proof fn lemma_payload_trimmed(s: Seq<char>)
    ensures
        parse_spec(s) matches Ok(StatementView::Write { payload, .. }) ==> is_payload(payload),
{
    match parse_spec(s) {
        Ok(StatementView::Write { payload, .. }) => {
            let i0 = skip_ws(s, 0);
            lemma_skip_ws_lands(s, 0);
            lemma_word_end_run_bound(s, i0);
            lemma_word_end_spans_word(s, i0);
            let e0 = word_end(s, i0);
            let i1 = skip_ws(s, e0);
            lemma_skip_ws_lands(s, e0);
            lemma_word_end_run_bound(s, i1);
            lemma_word_end_spans_word(s, i1);
            let e1 = word_end(s, i1);
            let i2 = skip_ws(s, e1);
            lemma_skip_ws_lands(s, e1);
            lemma_word_end_run_bound(s, i2);
            lemma_word_end_spans_word(s, i2);
            let e2 = word_end(s, i2);
            let i3 = skip_ws(s, e2);
            lemma_skip_ws_lands(s, e2);
            lemma_word_end_run_bound(s, i3);
            lemma_word_end_spans_word(s, i3);
            let e3 = word_end(s, i3);
            let i4 = skip_ws(s, e3);
            lemma_skip_ws_lands(s, e3);
            let end = trimmed_end(s, s.len() as int);
            lemma_trimmed_end_lands(s, s.len() as int);
            lemma_trimmed_end_keeps(s, s.len() as int, i4);
            assert(payload == s.subrange(i4, end));
            assert(payload[0] == s[i4]);
            assert(payload.last() == s[end - 1]);
        },
        _ => {},
    }
}

/// A position of `s` seen in `s` followed by whitespace: the same, or the
/// end of the longer text for the end of `s`.
spec fn moved(s: Seq<char>, t: Seq<char>, x: int) -> int {
    if x < s.len() {
        x
    } else {
        t.len() as int
    }
}

proof fn lemma_skip_to_end(t: Seq<char>, j: int)
    requires
        0 <= j <= t.len(),
        forall|k: int| j <= k < t.len() ==> is_ws(#[trigger] t[k]),
    ensures
        skip_ws(t, j) == t.len(),
    decreases t.len() - j,
{
    if j < t.len() {
        lemma_skip_to_end(t, j + 1);
    }
}

proof fn lemma_skip_extended(s: Seq<char>, w: Seq<char>, x: int)
    requires
        0 <= x <= s.len(),
        all_ws(w),
        w.len() > 0,
    ensures
        skip_ws(s + w, moved(s, s + w, x)) == moved(s, s + w, skip_ws(s, x)),
        skip_ws(s, x) <= s.len(),
    decreases s.len() - x,
{
    let t = s + w;
    assert forall|k: int| s.len() <= k < t.len() implies is_ws(#[trigger] t[k]) by {
        assert(t[k] == w[k - s.len()]);
    }
    lemma_skip_to_end(t, s.len() as int);
    lemma_skip_to_end(t, t.len() as int);
    if x < s.len() {
        assert(t[x] == s[x]);
        if is_ws(s[x]) {
            lemma_skip_extended(s, w, x + 1);
        }
    }
}

proof fn lemma_word_end_extended(s: Seq<char>, w: Seq<char>, x: int)
    requires
        0 <= x < s.len(),
        all_ws(w),
        w.len() > 0,
    ensures
        word_end(s + w, x) == word_end(s, x),
        word_end(s, x) <= s.len(),
    decreases s.len() - x,
{
    let t = s + w;
    lemma_word_end_run_bound(s, x);
    assert(t[x] == s[x]);
    if !is_ws(s[x]) {
        if x + 1 < s.len() {
            lemma_word_end_extended(s, w, x + 1);
        } else {
            assert(t[s.len() as int] == w[0]);
            assert(is_ws(w[0]));
            assert(word_end(t, x + 1) == x + 1);
            assert(word_end(s, x + 1) == x + 1);
        }
    }
}

/// One word and the blanks after it read the same in `s` and in `s`
/// followed by whitespace.
proof fn lemma_word_step_extended(s: Seq<char>, w: Seq<char>, x: int)
    requires
        0 <= x <= s.len(),
        all_ws(w),
        w.len() > 0,
    ensures
        word_end(s, x) <= s.len(),
        word_end(s + w, moved(s, s + w, x)) == (if x < s.len() {
            word_end(s, x)
        } else {
            (s + w).len() as int
        }),
        (s + w).subrange(moved(s, s + w, x), word_end(s + w, moved(s, s + w, x))) == s.subrange(x, word_end(s, x)),
        skip_ws(s + w, word_end(s + w, moved(s, s + w, x))) == moved(s, s + w, skip_ws(s, word_end(s, x))),
{
    let t = s + w;
    lemma_word_end_run_bound(s, x);
    lemma_word_end_spans_word(s, x);
    if x < s.len() {
        lemma_word_end_extended(s, w, x);
        let e = word_end(s, x);
        assert(t.subrange(x, e) =~= s.subrange(x, e));
        lemma_skip_extended(s, w, e);
        if e == s.len() {
            assert(skip_ws(s, e) == e);
            assert forall|k: int| s.len() <= k < t.len() implies is_ws(#[trigger] t[k]) by {
                assert(t[k] == w[k - s.len()]);
            }
            lemma_skip_to_end(t, s.len() as int);
        }
    } else {
        assert(word_end(s, x) == x);
        assert(word_end(t, t.len() as int) == t.len());
        assert(skip_ws(t, t.len() as int) == t.len());
        assert(skip_ws(s, x) == x);
        assert(t.subrange(t.len() as int, t.len() as int) =~= s.subrange(x, x));
    }
}

proof fn lemma_trimmed_prefix(s: Seq<char>, w: Seq<char>, j: int)
    requires
        0 <= j <= s.len(),
    ensures
        trimmed_end(s + w, j) == trimmed_end(s, j),
    decreases j,
{
    if 0 < j {
        assert((s + w)[j - 1] == s[j - 1]);
        lemma_trimmed_prefix(s, w, j - 1);
    }
}

proof fn lemma_trimmed_extended(s: Seq<char>, w: Seq<char>, j: int)
    requires
        all_ws(w),
        0 <= j <= w.len(),
    ensures
        trimmed_end(s + w, s.len() + j) == trimmed_end(s, s.len() as int),
    decreases j,
{
    if j > 0 {
        assert((s + w)[s.len() + j - 1] == w[j - 1]);
        lemma_trimmed_extended(s, w, j - 1);
    } else {
        lemma_trimmed_prefix(s, w, s.len() as int);
    }
}

/// Trailing whitespace does not change what a statement says: a text that
/// parses to a statement parses to the same statement with any blanks after
/// it (as a typed line with a trailing space does).
pub proof fn lemma_trailing_blanks_ignored(s: Seq<char>, w: Seq<char>)
    requires
        all_ws(w),
    ensures
        parse_spec(s) is Ok ==> parse_spec(s + w) == parse_spec(s),
        parse_spec(s + w) is Ok <==> parse_spec(s) is Ok,
{
    if w.len() == 0 {
        assert(s + w =~= s);
    } else {
        let t = s + w;
        lemma_skip_extended(s, w, 0);
        lemma_skip_ws_lands(s, 0);
        let i0 = skip_ws(s, 0);
        lemma_word_step_extended(s, w, i0);
        lemma_word_end_spans_word(s, i0);
        let e0 = word_end(s, i0);
        let i1 = skip_ws(s, e0);
        lemma_skip_ws_lands(s, e0);
        lemma_word_step_extended(s, w, i1);
        lemma_word_end_spans_word(s, i1);
        let e1 = word_end(s, i1);
        let i2 = skip_ws(s, e1);
        lemma_skip_ws_lands(s, e1);
        lemma_word_step_extended(s, w, i2);
        lemma_word_end_spans_word(s, i2);
        let e2 = word_end(s, i2);
        let i3 = skip_ws(s, e2);
        lemma_skip_ws_lands(s, e2);
        lemma_word_step_extended(s, w, i3);
        lemma_word_end_spans_word(s, i3);
        let e3 = word_end(s, i3);
        let i4 = skip_ws(s, e3);
        lemma_skip_ws_lands(s, e3);
        lemma_trimmed_extended(s, w, w.len() as int);
        assert(t.len() == s.len() + w.len());
        if s.len() == 0 {
            assert forall|k: int| 0 <= k < t.len() implies is_ws(#[trigger] t[k]) by {
                assert(t[k] == w[k]);
            }
            lemma_skip_to_end(t, 0);
            assert(s.subrange(0, 0) =~= t.subrange(t.len() as int, t.len() as int));
        } else {
            let ti0 = skip_ws(t, 0);
            assert(ti0 == moved(s, t, i0));
            let te0 = word_end(t, ti0);
            let ti1 = skip_ws(t, te0);
            assert(ti1 == moved(s, t, i1));
            let te1 = word_end(t, ti1);
            let ti2 = skip_ws(t, te1);
            assert(ti2 == moved(s, t, i2));
            let te2 = word_end(t, ti2);
            let ti3 = skip_ws(t, te2);
            assert(ti3 == moved(s, t, i3));
            let te3 = word_end(t, ti3);
            let ti4 = skip_ws(t, te3);
            assert(ti4 == moved(s, t, i4));
            assert(t.subrange(ti0, te0) == s.subrange(i0, e0));
            assert(t.subrange(ti1, te1) == s.subrange(i1, e1));
            assert(t.subrange(ti2, te2) == s.subrange(i2, e2));
            assert(t.subrange(ti3, te3) == s.subrange(i3, e3));
            assert(ti0 >= t.len() <==> i0 >= s.len());
            assert(ti1 >= t.len() <==> i1 >= s.len());
            assert(ti2 >= t.len() <==> i2 >= s.len());
            assert(ti3 >= t.len() <==> i3 >= s.len());
            assert(ti4 >= t.len() <==> i4 >= s.len());
            if i4 < s.len() {
                lemma_trimmed_end_keeps(s, s.len() as int, i4);
                lemma_trimmed_end_lands(s, s.len() as int);
                assert(t.subrange(ti4, trimmed_end(t, t.len() as int)) =~= s.subrange(
                    i4,
                    trimmed_end(s, s.len() as int),
                ));
            }
            assert(parse_write_spec(t, te0) is Ok <==> parse_write_spec(s, e0) is Ok);
            assert(parse_write_spec(s, e0) is Ok ==> parse_write_spec(t, te0) == parse_write_spec(s, e0));
            assert(parse_list_spec(t, te0) is Ok <==> parse_list_spec(s, e0) is Ok);
            assert(parse_list_spec(s, e0) is Ok ==> parse_list_spec(t, te0) == parse_list_spec(s, e0));
            assert(parse_audit_spec(t, te0) is Ok <==> parse_audit_spec(s, e0) is Ok);
            assert(parse_audit_spec(s, e0) is Ok ==> parse_audit_spec(t, te0) == parse_audit_spec(s, e0));
            assert(id_then_end(t, te0) is Ok <==> id_then_end(s, e0) is Ok);
            assert(id_then_end(s, e0) is Ok ==> id_then_end(t, te0) == id_then_end(s, e0));
        }
    }
}

} // verus!