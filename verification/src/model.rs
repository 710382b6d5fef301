//! The data model of the asset store: the `Asset` record, its mathematical
//! view, the error taxonomy, and the well-formedness conditions the store
//! maintains.

use vstd::prelude::*;

verus! {

/// A character the store writes into a JSON string without escaping:
/// printable ASCII, excluding the quote and the backslash.
pub open spec fn plain_char(c: char) -> bool {
    &&& c as u32 != 34
    &&& c as u32 != 92
    &&& 0x20 <= c as u32 <= 0x7e
}

/// Every character of the sequence is plain.
pub open spec fn plain_seq(s: Seq<char>) -> bool {
    forall|i: int| 0 <= i < s.len() ==> plain_char(#[trigger] s[i])
}

/// An ASCII letter or digit, the alphabet of generated asset names.
pub open spec fn alnum_char(c: char) -> bool {
    ||| 48 <= c as u32 <= 57
    ||| 65 <= c as u32 <= 90
    ||| 97 <= c as u32 <= 122
}

/// One tracked inventory item. `created_at` holds the UTC timestamp the
/// asset was created with, rendered as an RFC 3339 string; it is set at
/// creation and never mutated.
#[derive(Debug, Clone)]
pub struct Asset {
    pub id: u64,
    pub name: String,
    pub category: String,
    pub vulnerabilities: u64,
    pub created_at: String,
}

/// The mathematical value of an `Asset`: the same record with its strings
/// as character sequences.
pub struct AssetV {
    pub id: u64,
    pub name: Seq<char>,
    pub category: Seq<char>,
    pub vulnerabilities: u64,
    pub created_at: Seq<char>,
}

impl View for Asset {
    type V = AssetV;

    open spec fn view(&self) -> AssetV {
        AssetV {
            id: self.id,
            name: self.name@,
            category: self.category@,
            vulnerabilities: self.vulnerabilities,
            created_at: self.created_at@,
        }
    }
}

impl AssetV {
    /// The record round-trips through the store's JSON codec: its strings
    /// need no escaping and its numbers fit in nineteen decimal digits.
    pub open spec fn wf(self) -> bool {
        &&& plain_seq(self.name)
        &&& plain_seq(self.category)
        &&& plain_seq(self.created_at)
        &&& self.id as nat <= crate::max_numeric()
        &&& self.vulnerabilities as nat <= crate::max_numeric()
    }

    /// The identity of an asset as the UI understands it: the
    /// id + name + created_at tuple.
    pub open spec fn identity(self) -> (u64, Seq<char>, Seq<char>) {
        (self.id, self.name, self.created_at)
    }
}

impl Asset {
    /// Well-formedness of the record, stated on its view.
    pub open spec fn wf(self) -> bool {
        self@.wf()
    }
}

/// The views of all the assets of a collection, in order.
pub open spec fn views_of(v: Seq<Asset>) -> Seq<AssetV> {
    v.map(|i: int, a: Asset| a@)
}

/// Every asset of the collection is well-formed.
pub open spec fn wf_assets(v: Seq<AssetV>) -> bool {
    forall|i: int| 0 <= i < v.len() ==> (#[trigger] v[i]).wf()
}

/// What can go wrong in the store and in the dashboard loop.
#[derive(Clone, Copy, Debug, PartialEq, Eq, Structural)]
pub enum Error {
    /// The backing file is missing or unreadable.
    StorageReadError,
    /// The backing file does not hold a well-formed JSON array of assets.
    StorageParseError,
    /// The backing file could not be overwritten.
    StorageWriteError,
    /// A removal was asked for at an index at or past the end.
    IndexOutOfRange,
    /// The event channel's other side is gone.
    ChannelClosed,
    /// The external data-sync collaborator failed.
    ExternalSyncError,
}

} // verus!
