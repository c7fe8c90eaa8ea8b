use vstd::prelude::*;
use vstd::string::StringSliceAdditionalSpecFns;
use vstd::utf8::encode_utf8;
use crate::diagnostics::Severity;
use crate::indent::{indent_text, indentation_only_moves_horizontal_space, rewrite_line_indentation};
use crate::grammar::TokenKind;
use crate::interner::Interner;
use crate::layout::{
    collect_layout_metadata, layout_of, lemma_layout_events, spec_layout_result, LayoutError,
};
use crate::lex::{spec_next, st, Lexer};
use crate::lossless::{lemma_lossless_placed, spec_lossless, LosslessLexError, LosslessTokenStream};
use crate::fragment::{file_at, start_cursor};
use crate::parse::Parser;
use crate::spacing::{rewrite_token_spacing, spaced_text, spacing_only_moves_horizontal_space};
use crate::span::{FileId, Span};
use crate::text::strip_hws;

verus! {

/// Options of the conservative source formatter.
#[derive(Clone, Copy, Debug, PartialEq, Eq, Structural)]
pub struct FormatOptions {
    /// Spaces per nesting level when indenting with spaces.
    pub indent_width: usize,
    /// Indent with one tab per nesting level instead.
    pub use_tabs: bool,
}

impl Default for FormatOptions {
    /// Two-space indentation.
    fn default() -> (r: Self)
        ensures
            r.indent_width == 2,
            !r.use_tabs,
    {
        FormatOptions { indent_width: 2, use_tabs: false }
    }
}

/// Why the formatter refuses to rewrite a source.
#[derive(Clone, Debug, PartialEq, Eq)]
pub enum FormatError {
    Lex(LosslessLexError),
    Parse { span: Span, message: String },
    InvalidIndentWidth { width: usize },
    InvalidToken { span: Span },
    UnbalancedBraces { span: Span },
}

/// The formatter's error for a layout error.
pub open spec fn layout_format_error(e: LayoutError) -> FormatError {
    match e {
        LayoutError::InvalidToken { span } => FormatError::InvalidToken { span },
        LayoutError::UnbalancedBraces { span } => FormatError::UnbalancedBraces { span },
    }
}

fn from_layout_error(e: LayoutError) -> (r: FormatError)
    ensures
        r == layout_format_error(e),
{
    match e {
        LayoutError::InvalidToken { span } => FormatError::InvalidToken { span },
        LayoutError::UnbalancedBraces { span } => FormatError::UnbalancedBraces { span },
    }
}

/// The parser accepts the source as a sequence of declarations of the
/// fragment that `fragment::file_at` reads, with no diagnostic.
pub open spec fn parses(s: Seq<u8>) -> bool {
    file_at(s, start_cursor(s, st(0, false, None))) is Some
}

/// The text with canonical token spacing, when the source lays out.
pub open spec fn spec_spaced(s: Seq<u8>) -> Option<Seq<u8>> {
    match spec_layout_result(s, spec_lossless(s)) {
        Ok((events, opaque)) => Some(spaced_text(s, spec_lossless(s), opaque)),
        Err(_) => None,
    }
}

/// The formatted text: canonical spacing, then canonical indentation of
/// the respaced text, when both texts lay out.
pub open spec fn spec_format(s: Seq<u8>, opts: FormatOptions) -> Option<Seq<u8>> {
    match spec_spaced(s) {
        Some(sp) => match spec_layout_result(sp, spec_lossless(sp)) {
            Ok((events, opaque)) => Some(indent_text(sp, opts, events, opaque)),
            Err(_) => None,
        },
        None => None,
    }
}

/// Format a source with the default two-space indentation.
pub fn format_source(source: &str) -> (r: Result<String, FormatError>)
    ensures
        spec_layout_result(source.spec_bytes(), spec_lossless(source.spec_bytes())) matches Err(e)
            ==> r == Err::<String, FormatError>(layout_format_error(e)),
        r matches Ok(out) ==> spec_format(
            source.spec_bytes(),
            FormatOptions { indent_width: 2, use_tabs: false },
        ) == Some(encode_utf8(out@)),
        r matches Ok(out) ==> strip_hws(encode_utf8(out@)) == strip_hws(source.spec_bytes()),
        r matches Err(FormatError::Parse { .. }) ==> spec_layout_result(
            source.spec_bytes(),
            spec_lossless(source.spec_bytes()),
        ) is Ok,
        spec_format(source.spec_bytes(), FormatOptions { indent_width: 2, use_tabs: false }) is Some
            && parses(source.spec_bytes()) ==> r is Ok,
{
    format_source_with_options(source, FormatOptions::default())
}

/// Canonicalize the spacing between tokens on a line and the indentation
/// of lines, preserving every other byte. Sources with a zero indent width,
/// an invalid token, unbalanced code braces or a parse error are refused.
pub fn format_source_with_options(source: &str, options: FormatOptions) -> (r: Result<
    String,
    FormatError,
>)
    ensures
        options.indent_width == 0 ==> r == Err::<String, FormatError>(
            FormatError::InvalidIndentWidth { width: 0 },
        ),
        options.indent_width != 0 ==> (spec_layout_result(
            source.spec_bytes(),
            spec_lossless(source.spec_bytes()),
        ) matches Err(e) ==> r == Err::<String, FormatError>(layout_format_error(e))),
        r matches Ok(out) ==> spec_format(source.spec_bytes(), options) == Some(encode_utf8(out@)),
        r matches Ok(out) ==> strip_hws(encode_utf8(out@)) == strip_hws(source.spec_bytes()),
        r matches Err(FormatError::Parse { .. }) ==> options.indent_width != 0
            && spec_layout_result(source.spec_bytes(), spec_lossless(source.spec_bytes())) is Ok,
        !(r matches Err(FormatError::Lex(_))),
        options.indent_width != 0 && spec_format(source.spec_bytes(), options) is Some
            && parses(source.spec_bytes()) ==> r is Ok,
{
    if options.indent_width == 0 {
        return Err(FormatError::InvalidIndentWidth { width: options.indent_width });
    }
    let ghost s = source.spec_bytes();
    let stream = match LosslessTokenStream::from_source(source) {
        Ok(stream) => stream,
        Err(e) => {
            return Err(FormatError::Lex(e));
        },
    };
    let (events, opaque) = match collect_layout_metadata(&stream) {
        Ok(layout) => layout,
        Err(e) => {
            return Err(from_layout_error(e));
        },
    };
    validate_parse(source)?;
    let spaced = rewrite_token_spacing(&stream, opaque.as_slice());
    let ghost sp = encode_utf8(spaced@);
    let n = source.as_bytes().len();
    let n2 = spaced.as_str().as_bytes().len();
    let stream2 = match LosslessTokenStream::from_source(spaced.as_str()) {
        Ok(stream) => stream,
        Err(e) => {
            return Err(FormatError::Lex(e));
        },
    };
    let (events2, opaque2) = match collect_layout_metadata(&stream2) {
        Ok(layout) => layout,
        Err(e) => {
            return Err(from_layout_error(e));
        },
    };
    proof {
        lemma_lossless_placed(sp);
        lemma_layout_events(sp, spec_lossless(sp), spec_lossless(sp).len() as int);
        spacing_only_moves_horizontal_space(s, opaque@);
        indentation_only_moves_horizontal_space(sp, options, events2@, opaque2@, 0, 0);
        assert(sp.subrange(0, sp.len() as int) =~= sp);
    }
    let out = rewrite_line_indentation(spaced.as_str(), &options, events2.as_slice(), opaque2.as_slice());
    Ok(out)
}

/// Parse the source and refuse it when the parser fails or reports an error.
pub fn validate_parse(source: &str) -> (r: Result<(), FormatError>)
    ensures
        r matches Err(e) ==> e is Parse,
        parses(source.spec_bytes()) ==> r is Ok,
        spec_next(source.spec_bytes(), st(0, false, None)).0.kind == TokenKind::Error ==> r is Err,
{
    let lexer = Lexer::new(source, Interner::new());
    let mut parser = Parser::new(lexer, FileId(0));
    match parser.parse_file() {
        Ok(_) => {},
        Err(error) => {
            return Err(FormatError::Parse { span: error.span, message: error.message });
        },
    }
    let diagnostics = parser.diagnostics();
    let mut i: usize = 0;
    while i < diagnostics.len()
        invariant
            i <= diagnostics@.len(),
            forall|j: int|
                0 <= j < diagnostics@.len() ==> (#[trigger] diagnostics@[j]).severity
                    == Severity::Error,
            forall|j: int| 0 <= j < i ==> (#[trigger] diagnostics@[j]).severity != Severity::Error,
            parses(source.spec_bytes()) ==> diagnostics@.len() == 0,
            spec_next(source.spec_bytes(), st(0, false, None)).0.kind == TokenKind::Error
                ==> diagnostics@.len() > 0,
        decreases diagnostics.len() - i,
    {
        if diagnostics[i].severity == Severity::Error {
            let d = &diagnostics[i];
            return Err(FormatError::Parse { span: d.primary, message: d.code.clone() });
        }
        i = i + 1;
    }
    proof {
        if diagnostics@.len() > 0 {
            assert(diagnostics@[0].severity == Severity::Error);
        }
    }
    Ok(())
}

} // verus!
