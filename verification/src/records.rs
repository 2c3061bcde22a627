//! The data model: records of a mapping document, the finished document, and
//! the descriptor index, together with their mathematical models.

use vstd::prelude::*;

verus! {

/// Model of a [`JavaProperty`]: a parameter binding of a method.
#[verifier::ext_equal]
pub ghost struct PropertyModel {
    pub name: Seq<char>,
    pub key: int,
}

/// Model of a [`JavaField`].
#[verifier::ext_equal]
pub ghost struct FieldModel {
    pub type_descriptor: Seq<char>,
    pub name: Seq<char>,
    pub intermediate: Seq<char>,
}

/// Model of a [`JavaMethod`].
#[verifier::ext_equal]
pub ghost struct MethodModel {
    pub intermediate: Seq<char>,
    pub name: Seq<char>,
    pub intermediate_descriptor: Seq<char>,
    pub properties: Seq<PropertyModel>,
}

/// Model of a [`JavaClass`].
#[verifier::ext_equal]
pub ghost struct ClassModel {
    pub name: Seq<char>,
    pub intermediate: Seq<char>,
    pub methods: Seq<MethodModel>,
    pub fields: Seq<FieldModel>,
}

/// Model of a [`Header`].
#[verifier::ext_equal]
pub ghost struct HeaderModel {
    pub major_version: int,
    pub minor_version: int,
    pub namespace_a: Seq<char>,
    pub namespace_b: Seq<char>,
}

/// Model of a [`TinyMap`]: the header, the classes in source order, and the
/// descriptor index as a mathematical map.
#[verifier::ext_equal]
pub ghost struct DocumentModel {
    pub header: HeaderModel,
    pub classes: Seq<ClassModel>,
    pub descriptors: Map<Seq<char>, Seq<char>>,
}

/// A single parameter binding of a method: the parameter's positional index at
/// the call site and its readable label.
#[derive(Debug, PartialEq, Eq)]
pub struct JavaProperty {
    pub name: String,
    pub key: i8,
}

impl View for JavaProperty {
    type V = PropertyModel;

    open spec fn view(&self) -> PropertyModel {
        PropertyModel { name: self.name@, key: self.key as int }
    }
}

/// A field of a class: its raw type signature, its intermediate name and its
/// resolved name.
#[derive(Debug, PartialEq, Eq)]
pub struct JavaField {
    pub type_descriptor: String,
    pub name: String,
    pub intermediate: String,
}

impl View for JavaField {
    type V = FieldModel;

    open spec fn view(&self) -> FieldModel {
        FieldModel {
            type_descriptor: self.type_descriptor@,
            name: self.name@,
            intermediate: self.intermediate@,
        }
    }
}

/// A method of a class: its raw signature, its intermediate name, its resolved
/// name, and its parameter bindings in source order.
#[derive(Debug, PartialEq, Eq)]
pub struct JavaMethod {
    pub intermediate: String,
    pub name: String,
    pub intermediate_descriptor: String,
    pub properties: Vec<JavaProperty>,
}

impl View for JavaMethod {
    type V = MethodModel;

    open spec fn view(&self) -> MethodModel {
        MethodModel {
            intermediate: self.intermediate@,
            name: self.name@,
            intermediate_descriptor: self.intermediate_descriptor@,
            properties: self.properties@.map_values(|p: JavaProperty| p@),
        }
    }
}

/// A class of the document: its resolved name, its intermediate name, and its
/// methods and fields in source order.
#[derive(Debug, PartialEq, Eq)]
pub struct JavaClass {
    pub name: String,
    pub intermediate: String,
    pub methods: Vec<JavaMethod>,
    pub fields: Vec<JavaField>,
}

impl View for JavaClass {
    type V = ClassModel;

    open spec fn view(&self) -> ClassModel {
        ClassModel {
            name: self.name@,
            intermediate: self.intermediate@,
            methods: self.methods@.map_values(|m: JavaMethod| m@),
            fields: self.fields@.map_values(|f: JavaField| f@),
        }
    }
}

/// The document header: format version numbers and the names of the two
/// naming schemes being mapped between.
#[derive(Debug, PartialEq, Eq)]
pub struct Header {
    pub major_version: i8,
    pub minor_version: i8,
    pub namespace_a: String,
    pub namespace_b: String,
}

impl View for Header {
    type V = HeaderModel;

    open spec fn view(&self) -> HeaderModel {
        HeaderModel {
            major_version: self.major_version as int,
            minor_version: self.minor_version as int,
            namespace_a: self.namespace_a@,
            namespace_b: self.namespace_b@,
        }
    }
}

/// One entry of the descriptor index: an intermediate class name and the named
/// class name it resolves to.
#[derive(Debug, PartialEq, Eq)]
pub struct DescriptorEntry {
    pub intermediate: String,
    pub name: String,
}

/// The descriptor index: resolves an intermediate class name to its named
/// counterpart. Entries are kept in insertion order; a later entry for the
/// same intermediate name shadows an earlier one, so the index reads as a map
/// in which the last write wins.
#[derive(Debug, PartialEq, Eq)]
pub struct DescriptorIndex {
    pub entries: Vec<DescriptorEntry>,
}

/// The map read off a sequence of index entries: later entries win.
pub open spec fn index_model(s: Seq<DescriptorEntry>) -> Map<Seq<char>, Seq<char>>
    decreases s.len(),
{
    if s.len() == 0 {
        Map::empty()
    } else {
        index_model(s.drop_last()).insert(s.last().intermediate@, s.last().name@)
    }
}

impl View for DescriptorIndex {
    type V = Map<Seq<char>, Seq<char>>;

    open spec fn view(&self) -> Map<Seq<char>, Seq<char>> {
        index_model(self.entries@)
    }
}

/// Entries at positions `j` and beyond never mention the key `k`, so the map
/// read off the whole sequence agrees at `k` with the map read off the prefix
/// before `j`.
proof fn lemma_index_model_skips_absent_suffix(s: Seq<DescriptorEntry>, j: int, k: Seq<char>)
    requires
        0 <= j <= s.len(),
        forall|i: int| j <= i < s.len() ==> s[i].intermediate@ != k,
    ensures
        index_model(s).dom().contains(k) == index_model(s.take(j)).dom().contains(k),
        index_model(s).dom().contains(k) ==> index_model(s)[k] == index_model(s.take(j))[k],
    decreases s.len() - j,
{
    if j == s.len() {
        assert(s.take(j) =~= s);
    } else {
        let prefix = s.take(s.len() - 1);
        assert(prefix =~= s.drop_last());
        assert(s.last().intermediate@ != k);
        lemma_index_model_skips_absent_suffix(prefix, j, k);
        assert(prefix.take(j) =~= s.take(j));
    }
}

impl DescriptorIndex {
    /// An empty index.
    pub fn new() -> (r: DescriptorIndex)
        ensures
            r@ == Map::<Seq<char>, Seq<char>>::empty(),
    {
        DescriptorIndex { entries: Vec::new() }
    }

    /// Binds `intermediate` to `name`, shadowing any earlier binding of the
    /// same intermediate name.
    pub fn insert(&mut self, intermediate: String, name: String)
        ensures
            final(self)@ == old(self)@.insert(intermediate@, name@),
    {
        let ghost pre = self.entries@;
        self.entries.push(DescriptorEntry { intermediate, name });
        proof {
            assert(self.entries@.drop_last() =~= pre);
        }
    }

    /// Looks the key up: the named name bound last to `intermediate`, or
    /// nothing when the index holds no binding for it.
    pub fn get(&self, intermediate: &str) -> (r: Option<&String>)
        ensures
            match r {
                Some(name) => self@.dom().contains(intermediate@) && name@ == self@[intermediate@],
                None => !self@.dom().contains(intermediate@),
            },
    {
        let needle = intermediate.to_owned();
        let mut j: usize = self.entries.len();
        while j > 0
            invariant
                j <= self.entries.len(),
                needle@ == intermediate@,
                forall|i: int| j <= i < self.entries@.len() ==> self.entries@[i].intermediate@ != intermediate@,
            decreases j,
        {
            j = j - 1;
            if self.entries[j].intermediate == needle {
                proof {
                    lemma_index_model_skips_absent_suffix(self.entries@, j + 1, intermediate@);
                    assert(self.entries@.take(j + 1).drop_last() =~= self.entries@.take(j as int));
                    assert(self.entries@.take(j + 1).last() == self.entries@[j as int]);
                }
                return Some(&self.entries[j].name);
            }
        }
        proof {
            lemma_index_model_skips_absent_suffix(self.entries@, 0, intermediate@);
            assert(self.entries@.take(0) =~= Seq::<DescriptorEntry>::empty());
        }
        None
    }
}

/// The finished mapping document: one header, the classes in source order, and
/// the descriptor index from intermediate class names to named class names.
#[derive(Debug, PartialEq, Eq)]
pub struct TinyMap {
    pub header: Header,
    pub classes: Vec<JavaClass>,
    pub descriptors: DescriptorIndex,
}

impl View for TinyMap {
    type V = DocumentModel;

    open spec fn view(&self) -> DocumentModel {
        DocumentModel {
            header: self.header@,
            classes: self.classes@.map_values(|c: JavaClass| c@),
            descriptors: self.descriptors@,
        }
    }
}

impl TinyMap {
    /// Resolves an intermediate class name through the descriptor index:
    /// the named name the index binds it to, or nothing when the document
    /// holds no class record for it.
    pub fn intermediate_to_named(&self, named: &str) -> (r: Option<&String>)
        ensures
            match r {
                Some(name) => self@.descriptors.dom().contains(named@)
                    && name@ == self@.descriptors[named@],
                None => !self@.descriptors.dom().contains(named@),
            },
    {
        let desc = self.descriptors.get(named);
        desc
    }
}

} // verus!
