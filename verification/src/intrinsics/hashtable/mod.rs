//! Shared hashtable code of `Map<K, V>` and `Set<T>`.
//!
//! Both collections sit on the same open-addressed, linear-probing
//! table: `{ entries, states, len, cap }`. A `Map`'s entry is its key
//! followed by its value, a `Set`'s entry is its key. `states` holds one
//! byte per bucket.

pub mod copying;
pub mod cursor;
pub mod from_list;
pub mod insert;
pub mod insertion;
pub mod lifecycle;
pub mod listing;
pub mod lookup;
pub mod probing;
pub mod proper;
pub mod read;
pub mod rehashing;
pub mod removal;
pub mod resize;
pub mod resizing;
pub mod roundtrip;
pub mod settling;
pub mod util;
pub mod value_semantics;
pub mod walking;
pub mod writing;
