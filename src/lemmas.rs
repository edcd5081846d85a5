//! What holds of every token the scanner yields.
use vstd::prelude::*;
use vstd::string::StringSliceAdditionalSpecFns;
use vstd::utf8::encode_utf8;
use crate::grammar::{
    digits_of, ident_end, is_digit, is_ident_char, is_number_char, is_space, keyword_of, next_token,
    number_end, skip_end, string_rest, Lexeme,
};
use crate::offsets::{lemma_byte_offset_ends, lemma_encode_subrange};
use crate::scanner::{denotes, ScanError, Scanner};
use crate::token::TokenKind;

verus! {

/// The raw text of the current token is exactly the source between the token's
/// start and end byte offsets.
pub proof fn lemma_raw_text_is_source_slice(sc: &Scanner)
    requires
        sc.wf(),
    ensures
        sc.current().start <= sc.current().end <= sc.input().spec_bytes().len(),
        encode_utf8(sc.current().raw) == sc.input().spec_bytes().subrange(
            sc.current().start as int,
            sc.current().end as int,
        ),
{
    let lx = sc.lexeme();
    lemma_encode_subrange(sc.source(), lx.start, lx.end);
}

/// Every index of a run that `number_end` measures holds a digit or a separator.
proof fn lemma_number_run(src: Seq<char>, i: int, k: int)
    requires
        0 <= i <= k < number_end(src, i),
    ensures
        is_number_char(src[k]),
    decreases src.len() - i,
{
    if k > i {
        lemma_number_run(src, i + 1, k);
    }
}

/// Dropping the separators of a run of digits and separators leaves digits only.
proof fn lemma_digits_only(t: Seq<char>)
    requires
        forall|k: int| 0 <= k < t.len() ==> is_number_char(#[trigger] t[k]),
    ensures
        forall|k: int| 0 <= k < digits_of(t).len() ==> is_digit(#[trigger] digits_of(t)[k]),
    decreases t.len(),
{
    if t.len() > 0 {
        let p = t.drop_last();
        assert(forall|k: int| 0 <= k < p.len() ==> p[k] == t[k]);
        lemma_digits_only(p);
        assert(is_number_char(t[t.len() - 1]));
        let d = digits_of(t);
        if t.last() != '_' {
            assert(d == digits_of(p).push(t.last()));
            assert forall|k: int| 0 <= k < d.len() implies is_digit(#[trigger] d[k]) by {
                if k < digits_of(p).len() {
                    assert(d[k] == digits_of(p)[k]);
                }
            }
        }
    }
}

/// The decoded text of a number token is its raw text with every separator
/// removed, and consists of digits only.
pub proof fn lemma_number_text(sc: &Scanner)
    requires
        sc.wf(),
        sc.current().kind == TokenKind::Number,
    ensures
        sc.current().text == digits_of(sc.current().raw),
        forall|k: int| 0 <= k < sc.current().text.len() ==> is_digit(#[trigger] sc.current().text[k]),
{
    let src = sc.source();
    let lx = sc.lexeme();
    let raw = src.subrange(lx.start, lx.end);
    assert(lx.end == number_end(src, lx.start));
    assert forall|k: int| 0 <= k < raw.len() implies is_number_char(#[trigger] raw[k]) by {
        lemma_number_run(src, lx.start, lx.start + k);
    }
    lemma_digits_only(raw);
}

/// A string scan that succeeds ends just after a closing quote.
proof fn lemma_string_rest_end(src: Seq<char>, i: int, start: int)
    requires
        0 <= i,
        string_rest(src, i, start) is Ok,
    ensures
        i < string_rest(src, i, start)->Ok_0.0 <= src.len(),
        src[string_rest(src, i, start)->Ok_0.0 - 1] == '"',
    decreases src.len() - i,
{
    if i < src.len() && src[i] != '"' {
        if src[i] == '\\' {
            lemma_string_rest_end(src, i + 2, start);
        } else {
            lemma_string_rest_end(src, i + 1, start);
        }
    }
}

/// Without escapes, a string scan decodes to the characters before the closing quote.
proof fn lemma_string_rest_plain(src: Seq<char>, i: int, start: int)
    requires
        0 <= i,
        string_rest(src, i, start) is Ok,
        forall|k: int| i <= k < string_rest(src, i, start)->Ok_0.0 ==> src[k] != '\\',
    ensures
        string_rest(src, i, start)->Ok_0.1 == src.subrange(i, string_rest(src, i, start)->Ok_0.0 - 1),
    decreases src.len() - i,
{
    lemma_string_rest_end(src, i, start);
    let e = string_rest(src, i, start)->Ok_0.0;
    if src[i] == '"' {
        assert(src.subrange(i, i) =~= Seq::<char>::empty());
    } else {
        lemma_string_rest_end(src, i + 1, start);
        lemma_string_rest_plain(src, i + 1, start);
        assert(src.subrange(i, e - 1) =~= seq![src[i]] + src.subrange(i + 1, e - 1));
    }
}

/// A string token without escapes decodes to its raw text with exactly the
/// first and last character, the quotes, removed.
pub proof fn lemma_plain_string_text(sc: &Scanner)
    requires
        sc.wf(),
        sc.current().kind == TokenKind::String,
        forall|k: int| 0 <= k < sc.current().raw.len() ==> sc.current().raw[k] != '\\',
    ensures
        sc.current().raw.len() >= 2,
        sc.current().text == sc.current().raw.subrange(1, sc.current().raw.len() - 1),
{
    let src = sc.source();
    let lx = sc.lexeme();
    let s = lx.start;
    let raw = src.subrange(s, lx.end);
    assert(src[s] == '"');
    lemma_string_rest_end(src, s + 1, s);
    assert forall|k: int| s + 1 <= k < lx.end implies src[k] != '\\' by {
        assert(raw[k - s] == src[k]);
    }
    lemma_string_rest_plain(src, s + 1, s);
    assert(raw.subrange(1, raw.len() - 1) =~= src.subrange(s + 1, lx.end - 1));
}

/// Where skippable content ends: within the text, and at a character that
/// is neither whitespace nor the start of a line comment.
proof fn lemma_skip_end(src: Seq<char>, i: int, in_comment: bool)
    requires
        0 <= i <= src.len(),
    ensures
        i <= skip_end(src, i, in_comment) <= src.len(),
        skip_end(src, i, in_comment) < src.len() ==> {
            let s = skip_end(src, i, in_comment);
            &&& !is_space(src[s])
            &&& !(src[s] == '/' && s + 1 < src.len() && src[s + 1] == '/')
        },
    decreases src.len() - i,
{
    if i < src.len() {
        if in_comment {
            lemma_skip_end(src, i + 1, src[i] != '\n');
        } else if is_space(src[i]) {
            lemma_skip_end(src, i + 1, false);
        } else if src[i] == '/' && i + 1 < src.len() && src[i + 1] == '/' {
            lemma_skip_end(src, i + 2, true);
        }
    }
}

/// Whitespace and line comments never yield a token: a scan from `i` yields a
/// token that starts where the skippable content from `i` ends, at a character
/// that is neither whitespace nor the start of a line comment; only the
/// end-of-input token starts at the end of the text.
pub proof fn lemma_skipped_content_yields_no_token(src: Seq<char>, i: int)
    requires
        0 <= i <= src.len(),
        next_token(src, i) is Ok,
    ensures
        ({
            let lx = next_token(src, i)->Ok_0;
            &&& i <= lx.start
            &&& lx.start == skip_end(src, i, false)
            &&& lx.start < src.len() ==> !is_space(src[lx.start])
            &&& lx.start < src.len() ==> !(src[lx.start] == '/' && lx.start + 1 < src.len() && src[lx.start + 1] == '/')
            &&& (lx.kind == TokenKind::Eof <==> lx.start == src.len())
        }),
{
    lemma_skip_end(src, i, false);
}

/// The end-of-input token spans the empty range at the byte length of the
/// source, and a scan from its end yields it again.
pub proof fn lemma_eof_is_terminal(sc: &Scanner)
    requires
        sc.wf(),
        sc.current().kind == TokenKind::Eof,
    ensures
        sc.current().start == sc.input().spec_bytes().len(),
        sc.current().end == sc.input().spec_bytes().len(),
        sc.current().text.len() == 0,
        next_token(sc.source(), sc.lexeme().end) == Ok::<Lexeme, ScanError>(sc.lexeme()),
{
    let src = sc.source();
    lemma_skip_end(src, sc.scanned_from(), false);
    lemma_byte_offset_ends(src);
    lemma_skip_end(src, src.len() as int, false);
}

/// A keyword is recognised only when the whole identifier spells it: a keyword
/// token spells its keyword and is followed by no identifier character, and an
/// identifier token spells no keyword.
pub proof fn lemma_keyword_is_whole_identifier(sc: &Scanner)
    requires
        sc.wf(),
    ensures
        sc.current().kind is Keyword ==> {
            &&& keyword_of(sc.current().raw) == Some(sc.current().kind->Keyword_0)
            &&& sc.lexeme().end < sc.source().len() ==> !is_ident_char(sc.source()[sc.lexeme().end])
        },
        sc.current().kind == TokenKind::Identifier ==> keyword_of(sc.current().raw) is None,
{
    let src = sc.source();
    let lx = sc.lexeme();
    if sc.current().kind is Keyword || sc.current().kind == TokenKind::Identifier {
        assert(lx.end == ident_end(src, lx.start));
        lemma_ident_end(src, lx.start);
    }
}

/// A run that `ident_end` measures stops at the end of the text or at a
/// character that does not continue an identifier.
proof fn lemma_ident_end(src: Seq<char>, i: int)
    requires
        0 <= i <= src.len(),
    ensures
        i <= ident_end(src, i) <= src.len(),
        ident_end(src, i) < src.len() ==> !is_ident_char(src[ident_end(src, i)]),
    decreases src.len() - i,
{
    if i < src.len() && is_ident_char(src[i]) {
        lemma_ident_end(src, i + 1);
    }
}

} // verus!
