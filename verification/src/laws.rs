//! Laws of the parser: properties that hold of every document, stated over
//! the models of [`crate::semantics`] and proved once and for all.

use vstd::prelude::*;
use crate::records::ClassModel;
use crate::records::DocumentModel;
use crate::records::FieldModel;
use crate::records::PropertyModel;
use crate::records::MethodModel;
use crate::semantics::ErrorModel;
use crate::semantics::ParserState;
use crate::semantics::finish_model;
use crate::semantics::flush_class_model;
use crate::semantics::flush_method_model;
use crate::semantics::initial_state;
use crate::semantics::line_step;
use crate::semantics::parse_model;
use crate::semantics::run_lines;
use crate::text::lemma_tokens_of_nonempty;
use crate::text::lines_of;
use crate::text::tokens_of;

verus! {

/// Parsing is deterministic: any two documents that parsing one and the same
/// text may return have equal models.
pub proof fn lemma_parse_deterministic(
    text: Seq<char>,
    d1: DocumentModel,
    d2: DocumentModel,
)
    requires
        parse_model(text) == Ok::<DocumentModel, ErrorModel>(d1),
        parse_model(text) == Ok::<DocumentModel, ErrorModel>(d2),
    ensures
        d1 == d2,
{
}

/// The class at position `i` is covered by the descriptor index: its
/// intermediate name is bound, and when no later class carries the same
/// intermediate name, it is bound to this class's named name.
pub open spec fn class_covered_at(
    classes: Seq<ClassModel>,
    descriptors: Map<Seq<char>, Seq<char>>,
    i: int,
) -> bool {
    &&& descriptors.dom().contains(classes[i].intermediate)
    &&& ((forall|j: int|
        i < j < classes.len() ==> (#[trigger] classes[j]).intermediate != classes[i].intermediate)
        ==> descriptors[classes[i].intermediate] == classes[i].name)
}

/// Every class is covered by the descriptor index: its intermediate name is
/// bound, and the last class with a given intermediate name is the one whose
/// named name the binding carries.
pub open spec fn classes_covered(
    classes: Seq<ClassModel>,
    descriptors: Map<Seq<char>, Seq<char>>,
) -> bool {
    forall|i: int| 0 <= i < classes.len() ==> #[trigger] class_covered_at(classes, descriptors, i)
}

/// A line whose tokens open a class: leading token `c` and exactly three
/// tokens.
pub open spec fn is_class_record(toks: Seq<Seq<char>>) -> bool {
    toks.len() == 3 && toks[0] == "c"@
}

/// How many lines of `ls` are valid class records.
pub open spec fn class_record_count(ls: Seq<Seq<char>>) -> int
    decreases ls.len(),
{
    if ls.len() == 0 {
        0
    } else {
        (if is_class_record(tokens_of(ls[0])) {
            1int
        } else {
            0int
        }) + class_record_count(ls.drop_first())
    }
}

/// The classes a state holds: the closed ones, then the open buffer.
pub open spec fn staged_classes(st: ParserState) -> Seq<ClassModel> {
    if st.class.name.len() > 0 {
        st.doc.classes.push(st.class)
    } else {
        st.doc.classes
    }
}

proof fn lemma_covered_pointwise(cs1: Seq<ClassModel>, cs2: Seq<ClassModel>, m: Map<Seq<char>, Seq<char>>)
    requires
        cs1.len() == cs2.len(),
        forall|i: int|
            0 <= i < cs1.len() ==> (#[trigger] cs2[i]).intermediate == cs1[i].intermediate
                && cs2[i].name == cs1[i].name,
        classes_covered(cs1, m),
    ensures
        classes_covered(cs2, m),
{
    assert forall|i: int| 0 <= i < cs2.len() implies class_covered_at(cs2, m, i) by {
        assert(class_covered_at(cs1, m, i));
        if forall|j: int|
            i < j < cs2.len() ==> (#[trigger] cs2[j]).intermediate != cs2[i].intermediate {
            assert forall|j: int|
                i < j < cs1.len() implies (#[trigger] cs1[j]).intermediate
                != cs1[i].intermediate by {
                assert(cs2[j].intermediate != cs2[i].intermediate);
            }
        }
    }
}

proof fn lemma_covered_push(cs: Seq<ClassModel>, m: Map<Seq<char>, Seq<char>>, c: ClassModel)
    requires
        classes_covered(cs, m),
    ensures
        classes_covered(cs.push(c), m.insert(c.intermediate, c.name)),
{
    let cs2 = cs.push(c);
    let m2 = m.insert(c.intermediate, c.name);
    assert forall|i: int| 0 <= i < cs2.len() implies class_covered_at(cs2, m2, i) by {
        if i < cs.len() {
            assert(class_covered_at(cs, m, i));
            assert(cs2[i] == cs[i]);
            if forall|j: int|
                i < j < cs2.len() ==> (#[trigger] cs2[j]).intermediate != cs2[i].intermediate {
                assert(cs2[cs.len() as int].intermediate != cs2[i].intermediate);
                assert forall|j: int|
                    i < j < cs.len() implies (#[trigger] cs[j]).intermediate
                    != cs[i].intermediate by {
                    assert(cs2[j].intermediate != cs2[i].intermediate);
                }
                assert(m2[cs2[i].intermediate] == m[cs[i].intermediate]);
            }
        } else {
            assert(cs2[i] == c);
        }
    }
}

proof fn lemma_prefix_trans(a: Seq<ClassModel>, b: Seq<ClassModel>, c: Seq<ClassModel>)
    requires
        a.is_prefix_of(b),
        b.is_prefix_of(c),
    ensures
        a.is_prefix_of(c),
{
    assert(a =~= c.subrange(0, a.len() as int));
}

/// One accepted line keeps every already-staged class covered, adds one
/// staged class exactly when the line is a valid class record, and never
/// disturbs the classes already closed into the document.
proof fn lemma_step_facts(st: ParserState, toks: Seq<Seq<char>>)
    requires
        line_step(st, toks) is Ok,
        classes_covered(staged_classes(st), st.doc.descriptors),
        forall|k: int| 0 <= k < toks.len() ==> (#[trigger] toks[k]).len() > 0,
    ensures
        classes_covered(
            staged_classes(line_step(st, toks)->Ok_0),
            line_step(st, toks)->Ok_0.doc.descriptors,
        ),
        staged_classes(line_step(st, toks)->Ok_0).len() == staged_classes(st).len() + (
        if is_class_record(toks) {
            1int
        } else {
            0int
        }),
        st.doc.classes.is_prefix_of(line_step(st, toks)->Ok_0.doc.classes),
{
    let res = line_step(st, toks)->Ok_0;
    assert(st.doc.classes.is_prefix_of(st.doc.classes)) by {
        assert(st.doc.classes =~= st.doc.classes.subrange(0, st.doc.classes.len() as int));
    }
    if toks[0] == "tiny"@ {
        assert(staged_classes(res) =~= staged_classes(st));
    } else if toks[0] == "c"@ {
        if toks.len() != 3 {
        } else {
            let mid1 = flush_method_model(st);
            let mid2 = flush_class_model(mid1);
            let fresh = ClassModel {
                name: toks[2],
                intermediate: toks[1],
                methods: Seq::empty(),
                fields: Seq::empty(),
            };
            assert(staged_classes(mid1).len() == staged_classes(st).len());
            assert(forall|i: int|
                0 <= i < staged_classes(st).len() ==> (#[trigger] staged_classes(mid1)[i]).intermediate
                    == staged_classes(st)[i].intermediate && staged_classes(mid1)[i].name
                    == staged_classes(st)[i].name);
            lemma_covered_pointwise(staged_classes(st), staged_classes(mid1), st.doc.descriptors);
            assert(staged_classes(mid2) =~= staged_classes(mid1));
            lemma_covered_push(staged_classes(mid2), mid2.doc.descriptors, fresh);
            assert(fresh.name.len() > 0);
            assert(staged_classes(res) =~= staged_classes(mid2).push(fresh));
            assert(res.doc.descriptors == mid2.doc.descriptors.insert(fresh.intermediate, fresh.name));
            assert(mid2.doc.classes =~= staged_classes(mid1));
            assert(st.doc.classes.is_prefix_of(mid2.doc.classes)) by {
                assert(st.doc.classes =~= mid2.doc.classes.subrange(0, st.doc.classes.len() as int));
            }
        }
    } else if toks[0] == "m"@ {
        assert(staged_classes(res).len() == staged_classes(st).len());
        assert(forall|i: int|
            0 <= i < staged_classes(st).len() ==> (#[trigger] staged_classes(res)[i]).intermediate
                == staged_classes(st)[i].intermediate && staged_classes(res)[i].name
                == staged_classes(st)[i].name);
        lemma_covered_pointwise(staged_classes(st), staged_classes(res), st.doc.descriptors);
    } else if toks[0] == "f"@ {
        assert(staged_classes(res).len() == staged_classes(st).len());
        assert(forall|i: int|
            0 <= i < staged_classes(st).len() ==> (#[trigger] staged_classes(res)[i]).intermediate
                == staged_classes(st)[i].intermediate && staged_classes(res)[i].name
                == staged_classes(st)[i].name);
        lemma_covered_pointwise(staged_classes(st), staged_classes(res), st.doc.descriptors);
    } else {
        assert(staged_classes(res) =~= staged_classes(st));
    }
}

/// Running accepted lines keeps staged classes covered, adds one class per
/// valid class record, and only ever appends to the closed classes.
proof fn lemma_run_facts(st: ParserState, ls: Seq<Seq<char>>)
    requires
        run_lines(st, ls) is Ok,
        classes_covered(staged_classes(st), st.doc.descriptors),
    ensures
        classes_covered(
            staged_classes(run_lines(st, ls)->Ok_0),
            run_lines(st, ls)->Ok_0.doc.descriptors,
        ),
        staged_classes(run_lines(st, ls)->Ok_0).len() == staged_classes(st).len()
            + class_record_count(ls),
        st.doc.classes.is_prefix_of(run_lines(st, ls)->Ok_0.doc.classes),
    decreases ls.len(),
{
    if ls.len() == 0 {
        assert(st.doc.classes =~= st.doc.classes.subrange(0, st.doc.classes.len() as int));
    } else {
        let t0 = tokens_of(ls[0]);
        lemma_tokens_of_nonempty(ls[0]);
        match line_step(st, t0) {
            Ok(next) => {
                lemma_step_facts(st, t0);
                lemma_run_facts(next, ls.drop_first());
                lemma_prefix_trans(
                    st.doc.classes,
                    next.doc.classes,
                    run_lines(st, ls)->Ok_0.doc.classes,
                );
            },
            Err(e) => {},
        }
    }
}

/// Closing the buffers at end of input turns the staged classes, unchanged in
/// name and intermediate name, into the document's classes, and leaves the
/// descriptor index as it was.
proof fn lemma_finish_facts(st: ParserState)
    requires
        classes_covered(staged_classes(st), st.doc.descriptors),
    ensures
        classes_covered(finish_model(st).classes, finish_model(st).descriptors),
        finish_model(st).classes.len() == staged_classes(st).len(),
{
    let mid1 = flush_method_model(st);
    let fin = finish_model(st);
    assert(fin.classes =~= staged_classes(mid1));
    assert(staged_classes(mid1).len() == staged_classes(st).len());
    assert(forall|i: int|
        0 <= i < staged_classes(st).len() ==> (#[trigger] staged_classes(mid1)[i]).intermediate
            == staged_classes(st)[i].intermediate && staged_classes(mid1)[i].name
            == staged_classes(st)[i].name);
    lemma_covered_pointwise(staged_classes(st), staged_classes(mid1), st.doc.descriptors);
    lemma_covered_pointwise(staged_classes(mid1), fin.classes, fin.descriptors);
}

/// After a successful parse, every class of the document is covered by the
/// descriptor index: its intermediate name is bound, and — since a repeated
/// intermediate name is rebound by each later class record — the binding
/// carries the named name of the last class with that intermediate name.
pub proof fn lemma_descriptor_index_covers_classes(text: Seq<char>, doc: DocumentModel)
    requires
        parse_model(text) == Ok::<DocumentModel, ErrorModel>(doc),
    ensures
        classes_covered(doc.classes, doc.descriptors),
{
    let st0 = initial_state();
    assert(classes_covered(staged_classes(st0), st0.doc.descriptors));
    lemma_run_facts(st0, lines_of(text));
    lemma_finish_facts(run_lines(st0, lines_of(text))->Ok_0);
}

/// After a successful parse, the document holds exactly one class per valid
/// class record of the text.
pub proof fn lemma_class_count_matches_records(text: Seq<char>, doc: DocumentModel)
    requires
        parse_model(text) == Ok::<DocumentModel, ErrorModel>(doc),
    ensures
        doc.classes.len() == class_record_count(lines_of(text)),
{
    let st0 = initial_state();
    assert(classes_covered(staged_classes(st0), st0.doc.descriptors));
    lemma_run_facts(st0, lines_of(text));
    lemma_finish_facts(run_lines(st0, lines_of(text))->Ok_0);
}

/// Classes closed into the document stay there, in their order, whatever
/// lines are read afterwards: later lines only append.
pub proof fn lemma_run_preserves_class_order(st: ParserState, ls: Seq<Seq<char>>)
    requires
        run_lines(st, ls) is Ok,
        classes_covered(staged_classes(st), st.doc.descriptors),
    ensures
        st.doc.classes.is_prefix_of(run_lines(st, ls)->Ok_0.doc.classes),
{
    lemma_run_facts(st, ls);
}

/// A field record appends exactly one field, made of its tokens, to the open
/// class's field sequence, and changes nothing else: fields close immediately
/// and keep their encounter order.
pub proof fn lemma_field_record_appends(st: ParserState, toks: Seq<Seq<char>>)
    requires
        toks.len() >= 4,
        toks[0] == "f"@,
    ensures
        line_step(st, toks) == Ok::<ParserState, ErrorModel>(
            ParserState {
                class: ClassModel {
                    fields: st.class.fields.push(
                        FieldModel {
                            type_descriptor: toks[1],
                            name: toks[3],
                            intermediate: toks[2],
                        },
                    ),
                    ..st.class
                },
                ..st
            },
        ),
{
    proof_distinct_selectors();
}

/// A property record with a well-formed key appends exactly one parameter
/// binding to the buffered method's sequence, and changes nothing else:
/// properties keep their encounter order.
pub proof fn lemma_property_record_appends(st: ParserState, toks: Seq<Seq<char>>, key: int)
    requires
        toks.len() >= 3,
        toks[0] == "p"@,
        crate::numbers::parse_i8_model(toks[1]) == Some(key),
    ensures
        line_step(st, toks) == Ok::<ParserState, ErrorModel>(
            ParserState {
                method: MethodModel {
                    properties: st.method.properties.push(
                        PropertyModel { name: toks[2], key: key },
                    ),
                    ..st.method
                },
                ..st
            },
        ),
{
    proof_distinct_selectors();
}

/// A method record closes the buffered method, if any, into the open class
/// and opens a new method from its tokens: methods keep their encounter
/// order, and the buffered method always reaches its class before the class
/// closes.
pub proof fn lemma_method_record_buffers(st: ParserState, toks: Seq<Seq<char>>)
    requires
        toks.len() >= 4,
        toks[0] == "m"@,
    ensures
        line_step(st, toks) == Ok::<ParserState, ErrorModel>(
            ParserState {
                method: MethodModel {
                    intermediate: toks[2],
                    name: toks[3],
                    intermediate_descriptor: toks[1],
                    properties: Seq::empty(),
                },
                ..flush_method_model(st)
            },
        ),
{
    proof_distinct_selectors();
}

/// A valid class record rebinds its intermediate name unconditionally in the
/// descriptor index: with a repeated intermediate name, the last record's
/// named name wins.
pub proof fn lemma_class_record_overwrites_binding(st: ParserState, toks: Seq<Seq<char>>)
    requires
        is_class_record(toks),
    ensures
        line_step(st, toks) is Ok,
        line_step(st, toks)->Ok_0.doc.descriptors == st.doc.descriptors.insert(toks[1], toks[2]),
{
    proof_distinct_selectors();
}

/// A line whose leading token is none of the five record kinds fails the
/// whole parse with `MalformedRecord`, carrying that token: no document
/// comes back.
pub proof fn lemma_unknown_selector_fails(st: ParserState, toks: Seq<Seq<char>>)
    requires
        toks.len() > 0,
        toks[0] != "tiny"@,
        toks[0] != "c"@,
        toks[0] != "m"@,
        toks[0] != "f"@,
        toks[0] != "p"@,
    ensures
        line_step(st, toks) == Err::<ParserState, ErrorModel>(
            ErrorModel::MalformedRecord(toks[0]),
        ),
{
}

/// A class line with a token count other than three is a comment: the step
/// succeeds and leaves the state exactly as it was, closing and opening
/// nothing.
pub proof fn lemma_comment_class_line_skipped(st: ParserState, toks: Seq<Seq<char>>)
    requires
        toks.len() > 0,
        toks[0] == "c"@,
        toks.len() != 3,
    ensures
        line_step(st, toks) == Ok::<ParserState, ErrorModel>(st),
{
    proof_distinct_selectors();
}

/// The five selector literals are pairwise distinct character sequences.
proof fn proof_distinct_selectors()
    ensures
        "tiny"@ != "c"@ && "tiny"@ != "m"@ && "tiny"@ != "f"@ && "tiny"@ != "p"@,
        "c"@ != "m"@ && "c"@ != "f"@ && "c"@ != "p"@,
        "m"@ != "f"@ && "m"@ != "p"@,
        "f"@ != "p"@,
{
    reveal_strlit("tiny");
    reveal_strlit("c");
    reveal_strlit("m");
    reveal_strlit("f");
    reveal_strlit("p");
    assert("tiny"@.len() == 4);
    assert("c"@.len() == 1 && "c"@[0] == 'c');
    assert("m"@.len() == 1 && "m"@[0] == 'm');
    assert("f"@.len() == 1 && "f"@[0] == 'f');
    assert("p"@.len() == 1 && "p"@[0] == 'p');
}

} // verus!
