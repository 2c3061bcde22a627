//! The mapping document parser: one pass over the lines, verified against the
//! state machine of [`crate::semantics`].

use vstd::prelude::*;
use vstd::string::StringExecFns;
use crate::numbers::parse_i8;
use crate::records::DescriptorIndex;
use crate::records::Header;
use crate::records::JavaClass;
use crate::records::JavaField;
use crate::records::JavaMethod;
use crate::records::JavaProperty;
use crate::records::TinyMap;
use crate::records::DocumentModel;
use crate::semantics::ErrorModel;
use crate::semantics::ParseError;
use crate::semantics::ParserState;
use crate::semantics::close_class_model;
use crate::semantics::close_method_model;
use crate::semantics::finish_model;
use crate::semantics::initial_state;
use crate::semantics::lemma_run_lines_err_prefix;
use crate::semantics::lemma_run_lines_snoc;
use crate::semantics::line_step;
use crate::semantics::parse_model;
use crate::semantics::run_lines;
use crate::text::lines_of;
use crate::text::split_lines;
use crate::text::split_tokens;
use crate::text::tokens_of;
use crate::text::views_of_strings;

verus! {

/// The parser's in-progress values as one model state.
spec fn buffered_state(doc: TinyMap, class: JavaClass, method: JavaMethod) -> ParserState {
    ParserState { doc: doc@, class: class@, method: method@ }
}

/// The five record kinds a leading token can select, or none of them.
enum RecordKind {
    TinyHeader,
    ClassRecord,
    MethodRecord,
    FieldRecord,
    PropertyRecord,
    Unknown,
}

/// Which record kind the leading token selects.
fn classify(tok: &String) -> (k: RecordKind)
    ensures
        match k {
            RecordKind::TinyHeader => tok@ == "tiny"@,
            RecordKind::ClassRecord => tok@ == "c"@ && tok@ != "tiny"@,
            RecordKind::MethodRecord => tok@ == "m"@ && tok@ != "tiny"@ && tok@ != "c"@,
            RecordKind::FieldRecord => tok@ == "f"@ && tok@ != "tiny"@ && tok@ != "c"@ && tok@
                != "m"@,
            RecordKind::PropertyRecord => tok@ == "p"@ && tok@ != "tiny"@ && tok@ != "c"@ && tok@
                != "m"@ && tok@ != "f"@,
            RecordKind::Unknown => tok@ != "tiny"@ && tok@ != "c"@ && tok@ != "m"@ && tok@ != "f"@
                && tok@ != "p"@,
        },
{
    if String::from_str("tiny") == *tok {
        RecordKind::TinyHeader
    } else if String::from_str("c") == *tok {
        RecordKind::ClassRecord
    } else if String::from_str("m") == *tok {
        RecordKind::MethodRecord
    } else if String::from_str("f") == *tok {
        RecordKind::FieldRecord
    } else if String::from_str("p") == *tok {
        RecordKind::PropertyRecord
    } else {
        RecordKind::Unknown
    }
}

/// A vacant method buffer.
fn fresh_method() -> (m: JavaMethod)
    ensures
        m@ == crate::semantics::empty_method_model(),
{
    let m = JavaMethod {
        intermediate: String::new(),
        name: String::new(),
        intermediate_descriptor: String::new(),
        properties: Vec::new(),
    };
    proof {
        assert(m@ =~= crate::semantics::empty_method_model());
    }
    m
}

/// A vacant class buffer.
fn fresh_class() -> (c: JavaClass)
    ensures
        c@ == crate::semantics::empty_class_model(),
{
    let c = JavaClass {
        name: String::new(),
        intermediate: String::new(),
        methods: Vec::new(),
        fields: Vec::new(),
    };
    proof {
        assert(c@ =~= crate::semantics::empty_class_model());
    }
    c
}

/// Closes the buffered method, if any, into the buffered class, leaving the
/// method buffer vacant.
fn close_method(class: &mut JavaClass, method: &mut JavaMethod)
    ensures
        final(class)@ == close_method_model(old(class)@, old(method)@).0,
        final(method)@ == close_method_model(old(class)@, old(method)@).1,
{
    if !method.name.as_str().is_empty() {
        let mut finished = fresh_method();
        core::mem::swap(method, &mut finished);
        class.methods.push(finished);
        proof {
            assert(class@.methods =~= old(class)@.methods.push(old(method)@));
            assert(class@ =~= close_method_model(old(class)@, old(method)@).0);
        }
    }
}

/// Closes the buffered class, if any, into the document, leaving the class
/// buffer vacant.
fn close_class(doc: &mut TinyMap, class: &mut JavaClass)
    ensures
        final(doc)@ == close_class_model(old(doc)@, old(class)@).0,
        final(class)@ == close_class_model(old(doc)@, old(class)@).1,
{
    if !class.name.as_str().is_empty() {
        let mut finished = fresh_class();
        core::mem::swap(class, &mut finished);
        doc.classes.push(finished);
        proof {
            assert(doc@.classes =~= old(doc)@.classes.push(old(class)@));
            assert(doc@ =~= close_class_model(old(doc)@, old(class)@).0);
        }
    }
}

impl TinyMap {
    /// Parses a whole mapping document. Returns the finished document, or the
    /// first error: `MalformedRecord` for a line whose leading token is not
    /// one of the five record kinds, `FieldFormatError` for a recognized
    /// record with a required token missing or a numeric token that is not an
    /// 8-bit signed integer. No partial document is ever returned.
    pub fn parse(text: &str) -> (r: Result<TinyMap, ParseError>)
        ensures
            match r {
                Ok(doc) => parse_model(text@) == Ok::<DocumentModel, ErrorModel>(doc@),
                Err(e) => parse_model(text@) == Err::<DocumentModel, ErrorModel>(e@),
            },
    {
        let ghost lns = lines_of(text@);
        let lines = split_lines(text);
        let mut doc = TinyMap {
            header: Header {
                major_version: 0,
                minor_version: 0,
                namespace_a: String::new(),
                namespace_b: String::new(),
            },
            classes: Vec::new(),
            descriptors: DescriptorIndex::new(),
        };
        let mut class = fresh_class();
        let mut method = fresh_method();
        proof {
            assert(buffered_state(doc, class, method) =~= initial_state());
            assert(lns.take(0) =~= Seq::<Seq<char>>::empty());
        }
        let n: usize = lines.len();
        let mut i: usize = 0;
        while i < n
            invariant
                n == lines.len(),
                i <= n,
                views_of_strings(lines@) == lns,
                lns == lines_of(text@),
                run_lines(initial_state(), lns.take(i as int)) == Ok::<ParserState, ErrorModel>(
                    buffered_state(doc, class, method),
                ),
            decreases n - i,
        {
            let ghost pre = buffered_state(doc, class, method);
            let ghost line_view = lns[i as int];
            let ghost tv = tokens_of(line_view);
            let toks = split_tokens(lines[i].as_str());
            proof {
                assert(views_of_strings(lines@)[i as int] == lines@[i as int]@);
                assert(views_of_strings(toks@) == tv);
                assert(tv.len() == toks@.len());
                assert(forall|k: int| 0 <= k < toks@.len() ==> tv[k] == #[trigger] toks@[k]@);
                assert(lns.take(i + 1) =~= lns.take(i as int).push(line_view));
                lemma_run_lines_snoc(initial_state(), lns.take(i as int), line_view);
            }
            if toks.len() == 0 {
                proof {
                    lemma_run_lines_err_prefix(initial_state(), lns, i + 1);
                }
                return Err(ParseError::MalformedRecord(String::new()));
            }
            let sel = &toks[0];
            proof {
                assert(sel@ == tv[0]);
            }
            let kind = classify(sel);
            match kind {
                RecordKind::TinyHeader => {
                    if toks.len() < 5 {
                        proof {
                            lemma_run_lines_err_prefix(initial_state(), lns, i + 1);
                        }
                        return Err(ParseError::FieldFormatError);
                    }
                    let major = parse_i8(toks[1].as_str());
                    let minor = parse_i8(toks[2].as_str());
                    match (major, minor) {
                        (Some(a), Some(b)) => {
                            doc.header = Header {
                                major_version: a,
                                minor_version: b,
                                namespace_a: toks[3].clone(),
                                namespace_b: toks[4].clone(),
                            };
                            proof {
                                assert(buffered_state(doc, class, method) =~= line_step(
                                    pre,
                                    tv,
                                )->Ok_0);
                            }
                        },
                        _ => {
                            proof {
                                lemma_run_lines_err_prefix(initial_state(), lns, i + 1);
                            }
                            return Err(ParseError::FieldFormatError);
                        },
                    }
                },
                RecordKind::ClassRecord => {
                    if toks.len() == 3 {
                        close_method(&mut class, &mut method);
                        close_class(&mut doc, &mut class);
                        let inter = toks[1].clone();
                        let named = toks[2].clone();
                        doc.descriptors.insert(inter.clone(), named.clone());
                        class = JavaClass {
                            name: named,
                            intermediate: inter,
                            methods: Vec::new(),
                            fields: Vec::new(),
                        };
                        proof {
                            assert(buffered_state(doc, class, method) =~= line_step(
                                pre,
                                tv,
                            )->Ok_0);
                        }
                    }
                },
                RecordKind::MethodRecord => {
                    if toks.len() < 4 {
                        proof {
                            lemma_run_lines_err_prefix(initial_state(), lns, i + 1);
                        }
                        return Err(ParseError::FieldFormatError);
                    }
                    close_method(&mut class, &mut method);
                    method = JavaMethod {
                        intermediate: toks[2].clone(),
                        name: toks[3].clone(),
                        intermediate_descriptor: toks[1].clone(),
                        properties: Vec::new(),
                    };
                    proof {
                        assert(buffered_state(doc, class, method) =~= line_step(pre, tv)->Ok_0);
                    }
                },
                RecordKind::FieldRecord => {
                    if toks.len() < 4 {
                        proof {
                            lemma_run_lines_err_prefix(initial_state(), lns, i + 1);
                        }
                        return Err(ParseError::FieldFormatError);
                    }
                    class.fields.push(
                        JavaField {
                            type_descriptor: toks[1].clone(),
                            name: toks[3].clone(),
                            intermediate: toks[2].clone(),
                        },
                    );
                    proof {
                        assert(buffered_state(doc, class, method) =~= line_step(pre, tv)->Ok_0);
                    }
                },
                RecordKind::PropertyRecord => {
                    if toks.len() < 3 {
                        proof {
                            lemma_run_lines_err_prefix(initial_state(), lns, i + 1);
                        }
                        return Err(ParseError::FieldFormatError);
                    }
                    match parse_i8(toks[1].as_str()) {
                        Some(key) => {
                            method.properties.push(
                                JavaProperty { name: toks[2].clone(), key },
                            );
                            proof {
                                assert(buffered_state(doc, class, method) =~= line_step(
                                    pre,
                                    tv,
                                )->Ok_0);
                            }
                        },
                        None => {
                            proof {
                                lemma_run_lines_err_prefix(initial_state(), lns, i + 1);
                            }
                            return Err(ParseError::FieldFormatError);
                        },
                    }
                },
                RecordKind::Unknown => {
                    proof {
                        lemma_run_lines_err_prefix(initial_state(), lns, i + 1);
                    }
                    return Err(ParseError::MalformedRecord(sel.clone()));
                },
            }
            i = i + 1;
        }
        proof {
            assert(lns.take(n as int) =~= lns);
        }
        let ghost end_state = buffered_state(doc, class, method);
        close_method(&mut class, &mut method);
        close_class(&mut doc, &mut class);
        proof {
            assert(doc@ =~= finish_model(end_state));
        }
        Ok(doc)
    }
}

} // verus!
