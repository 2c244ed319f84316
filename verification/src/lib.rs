//! Deterministic data-normalization primitives, each with a contract that
//! Verus proves of its code.
//!
//! The core is a codec for time-ordered identifiers ([`ident`],
//! [`timestamp`], [`calendar`]), a text sanitizer that strips markup and
//! normalizes white space ([`markup`], [`text`]), and a recognizer for waste
//! management codes ([`codes`]). Around it stand small transforms of single
//! fields: case ([`casing`]), names ([`names`]), digests and tokens
//! ([`digest`]), runs of days ([`dates`]) and coercions of optional values
//! ([`values`]).

pub mod calendar;
pub mod casing;
pub mod chars;
pub mod codes;
pub mod dates;
pub mod digest;
pub mod ident;
pub mod markup;
pub mod names;
pub mod text;
pub mod timestamp;
pub mod values;

pub use calendar::last_day_of_month_ym;
pub use casing::{upper_first, upper_first_internal};
pub use codes::{
    parse_disposal_code, parse_env_code, parse_low_code, parse_recovery_code, CodeFamily,
};
pub use dates::{all_dates_from, date_range};
pub use digest::{
    md5_as_base64, md5_as_uuid, md5_verify_base64, md5_verify_uuid, random_base64,
};
pub use ident::{new_uuid, uuid_to_ts, Uuid};
pub use markup::strip_tags;
pub use names::join_names_array;
pub use text::{san_trim, trim};
pub use timestamp::Timestamp;
pub use values::{
    is_empty, is_false, is_null, is_true, isi, leading_pair, not_null, parse_bool, parse_i64,
    zero, zi64,
};
