//! The meaning of a mapping document: a line-by-line state machine that
//! dispatches on each line's leading token, buffers the class and method
//! currently being assembled, and builds the document model. The executable
//! parser is verified against `parse_model`.

use vstd::prelude::*;
use crate::numbers::parse_i8_model;
use crate::records::ClassModel;
use crate::records::DocumentModel;
use crate::records::FieldModel;
use crate::records::HeaderModel;
use crate::records::MethodModel;
use crate::records::PropertyModel;
use crate::text::lines_of;
use crate::text::tokens_of;

verus! {

/// Why parsing failed.
#[derive(Debug, PartialEq, Eq)]
pub enum ParseError {
    /// A line's leading token is not one of the five recognized record kinds;
    /// carries the offending token (empty for a line with no tokens at all).
    MalformedRecord(String),
    /// A recognized record is missing a required token, or a numeric token is
    /// not an 8-bit signed integer.
    FieldFormatError,
}

/// Model of a [`ParseError`].
#[verifier::ext_equal]
pub ghost enum ErrorModel {
    MalformedRecord(Seq<char>),
    FieldFormatError,
}

impl View for ParseError {
    type V = ErrorModel;

    open spec fn view(&self) -> ErrorModel {
        match self {
            ParseError::MalformedRecord(tok) => ErrorModel::MalformedRecord(tok@),
            ParseError::FieldFormatError => ErrorModel::FieldFormatError,
        }
    }
}

/// The parser's state between lines: the document built so far and the class
/// and method currently being assembled. A buffered class or method with an
/// empty name stands for no buffered entity at all; tokens are never empty,
/// so no record can open an entity with an empty name.
#[verifier::ext_equal]
pub ghost struct ParserState {
    pub doc: DocumentModel,
    pub class: ClassModel,
    pub method: MethodModel,
}

/// The class buffer in its vacant state.
pub open spec fn empty_class_model() -> ClassModel {
    ClassModel {
        name: Seq::empty(),
        intermediate: Seq::empty(),
        methods: Seq::empty(),
        fields: Seq::empty(),
    }
}

/// The method buffer in its vacant state.
pub open spec fn empty_method_model() -> MethodModel {
    MethodModel {
        intermediate: Seq::empty(),
        name: Seq::empty(),
        intermediate_descriptor: Seq::empty(),
        properties: Seq::empty(),
    }
}

/// The state before any line is read: zero versions, empty namespaces, no
/// classes, no descriptors, vacant buffers.
pub open spec fn initial_state() -> ParserState {
    ParserState {
        doc: DocumentModel {
            header: HeaderModel {
                major_version: 0,
                minor_version: 0,
                namespace_a: Seq::empty(),
                namespace_b: Seq::empty(),
            },
            classes: Seq::empty(),
            descriptors: Map::empty(),
        },
        class: empty_class_model(),
        method: empty_method_model(),
    }
}

/// Closes the buffered method, if any, into the buffered class: the class
/// and method buffers after the move.
pub open spec fn close_method_model(class: ClassModel, method: MethodModel) -> (ClassModel, MethodModel) {
    if method.name.len() > 0 {
        (ClassModel { methods: class.methods.push(method), ..class }, empty_method_model())
    } else {
        (class, method)
    }
}

/// Closes the buffered class, if any, into the document: the document and the
/// class buffer after the move. The buffered method must have been closed
/// into the class first.
pub open spec fn close_class_model(doc: DocumentModel, class: ClassModel) -> (DocumentModel, ClassModel) {
    if class.name.len() > 0 {
        (DocumentModel { classes: doc.classes.push(class), ..doc }, empty_class_model())
    } else {
        (doc, class)
    }
}

/// Closes the buffered method, if any, into the buffered class.
pub open spec fn flush_method_model(st: ParserState) -> ParserState {
    let closed = close_method_model(st.class, st.method);
    ParserState { class: closed.0, method: closed.1, ..st }
}

/// Closes the buffered class, if any, into the document. The buffered method
/// must have been closed into the class first.
pub open spec fn flush_class_model(st: ParserState) -> ParserState {
    let closed = close_class_model(st.doc, st.class);
    ParserState { doc: closed.0, class: closed.1, ..st }
}

/// One line of the document, given as its tokens. Dispatches on the leading
/// token:
/// - `tiny`: overwrites the header from tokens 2-5;
/// - `c` with exactly 3 tokens: closes the buffered method and class, opens a
///   new class, and binds its intermediate name in the descriptor index at
///   once; `c` with any other token count is a comment and changes nothing;
/// - `m`: closes the buffered method and opens a new one from tokens 2-4;
/// - `f`: appends a field from tokens 2-4 to the buffered class;
/// - `p`: appends a parameter binding from tokens 2-3 to the buffered method;
/// - anything else, or no tokens at all, fails with `MalformedRecord`.
/// A recognized record with too few tokens, or with a numeric token that is
/// not an 8-bit signed integer, fails with `FieldFormatError`.
pub open spec fn line_step(st: ParserState, toks: Seq<Seq<char>>) -> Result<ParserState, ErrorModel> {
    if toks.len() == 0 {
        Err(ErrorModel::MalformedRecord(Seq::empty()))
    } else if toks[0] == "tiny"@ {
        if toks.len() < 5 {
            Err(ErrorModel::FieldFormatError)
        } else {
            match (parse_i8_model(toks[1]), parse_i8_model(toks[2])) {
                (Some(major), Some(minor)) => Ok(
                    ParserState {
                        doc: DocumentModel {
                            header: HeaderModel {
                                major_version: major,
                                minor_version: minor,
                                namespace_a: toks[3],
                                namespace_b: toks[4],
                            },
                            ..st.doc
                        },
                        ..st
                    },
                ),
                _ => Err(ErrorModel::FieldFormatError),
            }
        }
    } else if toks[0] == "c"@ {
        if toks.len() != 3 {
            Ok(st)
        } else {
            let flushed = flush_class_model(flush_method_model(st));
            Ok(
                ParserState {
                    doc: DocumentModel {
                        descriptors: flushed.doc.descriptors.insert(toks[1], toks[2]),
                        ..flushed.doc
                    },
                    class: ClassModel {
                        name: toks[2],
                        intermediate: toks[1],
                        methods: Seq::empty(),
                        fields: Seq::empty(),
                    },
                    ..flushed
                },
            )
        }
    } else if toks[0] == "m"@ {
        if toks.len() < 4 {
            Err(ErrorModel::FieldFormatError)
        } else {
            let flushed = flush_method_model(st);
            Ok(
                ParserState {
                    method: MethodModel {
                        intermediate: toks[2],
                        name: toks[3],
                        intermediate_descriptor: toks[1],
                        properties: Seq::empty(),
                    },
                    ..flushed
                },
            )
        }
    } else if toks[0] == "f"@ {
        if toks.len() < 4 {
            Err(ErrorModel::FieldFormatError)
        } else {
            Ok(
                ParserState {
                    class: ClassModel {
                        fields: st.class.fields.push(
                            FieldModel {
                                type_descriptor: toks[1],
                                name: toks[3],
                                intermediate: toks[2],
                            },
                        ),
                        ..st.class
                    },
                    ..st
                },
            )
        }
    } else if toks[0] == "p"@ {
        if toks.len() < 3 {
            Err(ErrorModel::FieldFormatError)
        } else {
            match parse_i8_model(toks[1]) {
                Some(key) => Ok(
                    ParserState {
                        method: MethodModel {
                            properties: st.method.properties.push(
                                PropertyModel { name: toks[2], key: key },
                            ),
                            ..st.method
                        },
                        ..st
                    },
                ),
                None => Err(ErrorModel::FieldFormatError),
            }
        }
    } else {
        Err(ErrorModel::MalformedRecord(toks[0]))
    }
}

/// Runs the state machine over a sequence of lines, stopping at the first
/// failing line.
pub open spec fn run_lines(st: ParserState, ls: Seq<Seq<char>>) -> Result<ParserState, ErrorModel>
    decreases ls.len(),
{
    if ls.len() == 0 {
        Ok(st)
    } else {
        match line_step(st, tokens_of(ls[0])) {
            Ok(next) => run_lines(next, ls.drop_first()),
            Err(e) => Err(e),
        }
    }
}

/// End of input: the buffered method is closed into its class, then the
/// buffered class into the document.
pub open spec fn finish_model(st: ParserState) -> DocumentModel {
    flush_class_model(flush_method_model(st)).doc
}

/// What parsing a whole text yields: the document read off its lines, or the
/// first error.
pub open spec fn parse_model(text: Seq<char>) -> Result<DocumentModel, ErrorModel> {
    match run_lines(initial_state(), lines_of(text)) {
        Ok(st) => Ok(finish_model(st)),
        Err(e) => Err(e),
    }
}

/// Running one more line is one more step.
pub proof fn lemma_run_lines_snoc(st: ParserState, ls: Seq<Seq<char>>, l: Seq<char>)
    ensures
        run_lines(st, ls.push(l)) == (match run_lines(st, ls) {
            Ok(next) => line_step(next, tokens_of(l)),
            Err(e) => Err(e),
        }),
    decreases ls.len(),
{
    if ls.len() == 0 {
        assert(ls.push(l)[0] == l);
        assert(ls.push(l).drop_first() =~= Seq::<Seq<char>>::empty());
        match line_step(st, tokens_of(l)) {
            Ok(next) => {
                assert(run_lines(next, Seq::<Seq<char>>::empty()) == Ok::<ParserState, ErrorModel>(
                    next,
                ));
            },
            Err(e) => {},
        }
    } else {
        assert(ls.push(l)[0] == ls[0]);
        assert(ls.push(l).drop_first() =~= ls.drop_first().push(l));
        match line_step(st, tokens_of(ls[0])) {
            Ok(next) => {
                lemma_run_lines_snoc(next, ls.drop_first(), l);
            },
            Err(e) => {},
        }
    }
}

/// Once a prefix of the lines fails, the whole run fails the same way.
pub proof fn lemma_run_lines_err_prefix(st: ParserState, ls: Seq<Seq<char>>, k: int)
    requires
        0 <= k <= ls.len(),
        run_lines(st, ls.take(k)) is Err,
    ensures
        run_lines(st, ls) == run_lines(st, ls.take(k)),
    decreases ls.len(),
{
    if ls.len() == 0 || k == 0 {
        assert(ls.take(k) =~= Seq::<Seq<char>>::empty());
    } else {
        assert(ls.take(k)[0] == ls[0]);
        assert(ls.take(k).drop_first() =~= ls.drop_first().take(k - 1));
        match line_step(st, tokens_of(ls[0])) {
            Ok(next) => {
                lemma_run_lines_err_prefix(next, ls.drop_first(), k - 1);
            },
            Err(e) => {},
        }
    }
}

} // verus!
