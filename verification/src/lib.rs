//! Reader for line-oriented mapping documents that associate machine-generated
//! (intermediate) names of classes, fields, methods and method parameters with
//! their human-readable (named) counterparts.
//!
//! The parser scans the text line by line, dispatches on each line's leading
//! token, buffers the class and method currently being assembled, and builds a
//! [`TinyMap`]: a header, the classes in source order, and a descriptor index
//! from intermediate class names to named class names.

pub mod laws;
pub mod numbers;
pub mod parser;
pub mod records;
pub mod semantics;
pub mod text;

pub use records::DescriptorEntry;
pub use records::DescriptorIndex;
pub use records::Header;
pub use records::JavaClass;
pub use records::JavaField;
pub use records::JavaMethod;
pub use records::JavaProperty;
pub use records::TinyMap;
pub use records::ClassModel;
pub use records::DocumentModel;
pub use records::FieldModel;
pub use records::HeaderModel;
pub use records::MethodModel;
pub use records::PropertyModel;
pub use semantics::ParseError;
