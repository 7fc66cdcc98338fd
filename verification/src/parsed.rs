//! What messages of a core say to the user.

use vstd::prelude::*;
use crate::browse::{BrowseResult, LoadResult};
use crate::json::Json;
use crate::transport::{Output, QueueChange, QueueItem, Zone, ZoneSeek};

verus! {

/// Why a request failed: its id, and the session or the image that it was for.
#[derive(Debug)]
pub enum RoonApiError {
    BrowseInvalidItemKey((usize, Option<String>)),
    BrowseInvalidLevels((usize, Option<String>)),
    BrowseUnexpectedError((usize, Option<String>)),
    BrowseZoneNotFound((usize, Option<String>)),
    ImageUnexpectedError((usize, String)),
}

/// What a message says.
#[derive(Debug)]
pub enum Parsed {
    Nothing,
    RoonState,
    SettingsSaved(Json),
    Zones(Vec<Zone>),
    ZonesSeek(Vec<ZoneSeek>),
    ZonesRemoved(Vec<String>),
    Outputs(Vec<Output>),
    OutputsRemoved(Vec<String>),
    Queue(Vec<QueueItem>),
    QueueChanges(Vec<QueueChange>),
    BrowseResult(BrowseResult, Option<String>),
    LoadResult(LoadResult, Option<String>),
    Jpeg((String, Vec<u8>)),
    Png((String, Vec<u8>)),
    Error(RoonApiError),
}

} // verus!
