//! A bidirectional codec between a closed typed-value model and the tagged
//! attribute-value map format used by a key-value document store's low-level
//! item API.
//!
//! The encoder walks a [`typed::TypedValue`] and produces a map from field
//! names to [`attr::AttributeValue`] trees; the decoder walks such a map,
//! driven by the [`shape::Shape`] the caller requests, and rebuilds a typed
//! value.  Both directions are specified against spec-level models and the
//! round-trip, root-invariant, numeric-fidelity and enum-tagging laws are
//! proved in [`laws`].

pub mod attr;
pub mod de;
pub mod error;
pub mod keyser;
pub mod laws;
pub mod num;
pub mod ser;
pub mod shape;
pub mod typed;

pub use attr::AttrMap;
pub use attr::AttributeValue;
pub use de::clone_typed;
pub use de::from_hashmap;
pub use de::Deserializer;
pub use error::Error;
pub use error::ErrorKind;
pub use keyser::SimpleKeySerializer;
pub use ser::to_hashmap;
pub use ser::Serializer;
pub use shape::Field;
pub use shape::Shape;
pub use shape::Variant;
pub use shape::VariantShape;
pub use typed::TypedValue;
