//! Binary key/value encoding for a sorted, multi-versioned key-value store.
//!
//! Keys carry an 8-byte big-endian suffix holding `u64::MAX - timestamp`, so
//! that keys with equal user-key bytes sort newest timestamp first.  Values
//! encode as `meta ++ user_meta ++ varint(expires_at) ++ payload`; the
//! `version` field is never written.  Every operation is a pure, synchronous
//! data transformation, specified and verified; the `bytes` buffers that back
//! [`Key`] and [`Value`] sit behind the trusted boundary in [`bytes_spec`].

pub mod binary;

pub mod bytes_cmp;

pub mod bytes_spec;

pub mod iterator;

pub mod key;

pub mod key_mut;

pub mod raw_key_pointer;

pub mod raw_value_pointer;

pub mod value;

pub mod value_enc;

pub use binary::{
    binary_uvarint, binary_uvarint_allocate, put_binary_uvarint_to_vec, size_variant,
    u64_big_endian, u64_to_be_vec, MAX_VARINT_LEN64,
};
pub use iterator::SeekFrom;
pub use key::{
    compare_key, has_prefix, has_suffix, longest_prefix, longest_suffix, same_key, Key, KeyExt,
    KeyRef,
};
pub use key_mut::{KeyMut, KeyMutExt};
pub use raw_key_pointer::RawKeyPointer;
pub use raw_value_pointer::RawValuePointer;
pub use value::{value_has_prefix, value_has_suffix, value_longest_prefix, value_longest_suffix, Value, ValueExt, ValueRef};
pub use value_enc::{EncodedValue, EXPIRATION_OFFSET, META_OFFSET, USER_META_OFFSET};
