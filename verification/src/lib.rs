//! A bidirectional, namespace-aware mapping between an XML event stream
//! and a statically described data model. A caller declares the shape of
//! its data (records with named and namespaced fields, sequences, tagged
//! alternatives, options, scalars); the library materializes a value of
//! that shape from an XML document, or emits an XML document from such a
//! value.

mod cursor;
mod de;
mod error;
mod events;
mod fields;
mod ser;
mod tag;
mod text;
mod xml_io;

pub use cursor::{filtered, keep_event, Cursor};
pub use de::{from_events, from_str, from_string, Deserializer, Enum, Shape, Value};
pub use de::{decode_attr_value, option_free, start_name, text_of};
pub use de::{delta_sum, first_decl_at, is_skip_len, start_attrs};
pub use de::{
    all_text_shapes, any_scalar_shape, flat_record_decode, flat_record_result, flat_text_record,
    leading_text_fields, record_decls, record_shapes,
};
pub use de::lemma_scalar_field_event_round_trip;
pub use error::Error;
pub use fields::{
    attr_key_spec, cache_after, cache_contains, cache_view, dec_of, elem_key_spec, elem_key_used,
    synth_name, table_spec, CacheEntry, Field, FieldTable, FieldTableCache, FieldTableV, FieldV,
};
pub use fields::{lemma_field_table_stability, starts_with_attr, starts_with_value, u64_to_dec};
pub use ser::{binding_of, i64_to_dec, plain_elem_key, scalar_events, scalar_text_of,
    scalar_value, settings_of, to_events, to_events_custom, to_string, to_string_custom,
    value_text};
pub use ser::{lemma_boolean_text_round_trip, lemma_decimal_round_trip};
pub use ser::{Options, Serializer};
pub use tag::{parse_tag, parse_tag_spec, split_prefix, TagParts};
pub use text::{
    dec_val, falsy, lower_str, parse_bool_text, parse_char_text, parse_i64_text, parse_u64_text,
    sint_val, skip_leading_ws, truthy, ws_prefix_len,
};
pub use xml_io::{doc_events_of, rendered_text, writable, written_of};
pub use events::{Attribute, AttributeV, Event, EventV, Name, NameV, NsBinding, NsBindingV};
pub use events::{opt_str_view, qname_eq};
