//! The plugin as the host sees it: a sidebar entry, a page, and its events.

use crate::descriptor;
use crate::descriptor::Descriptor;
use crate::release::Cache;
use crate::scan;
use crate::scan::{ScanAction, ScanState};
use crate::text;
use vstd::prelude::*;

verus! {

/// Scratch-store key for the cached release list + scan cursor. The `/v1`
/// suffix lets a future format change invalidate old caches by bumping the
/// key instead of migrating in place.
pub const CACHE_KEY: &'static str = "release-radar/cache/v1";

/// Where the plugin appears in the host.
pub struct MountPoint {
    pub sidebar_label: String,
    pub sidebar_icon: Option<String>,
    pub initial_path: String,
}

/// What an event leads to.
pub enum Response {
    /// A scan was begun: perform the action and [`scan::step`] on.
    Scan { state: ScanState, action: ScanAction },
    /// A page to show.
    Page { page: Descriptor },
}

/// The plugin.
pub struct ReleaseRadar;

impl ReleaseRadar {
    /// Where the plugin appears in the host.
    pub fn manifest() -> (mount: MountPoint)
        ensures
            mount.sidebar_label@ == "Release Radar"@,
            descriptor::opt_text(mount.sidebar_icon) == Some("radar"@),
            mount.initial_path@ == "/"@,
    {
        MountPoint {
            sidebar_label: "Release Radar".to_owned(),
            sidebar_icon: Some("radar".to_owned()),
            initial_path: "/".to_owned(),
        }
    }

    /// The page when the view is opened: what is remembered, without a scan.
    pub fn render(cache: &Cache) -> (page: Descriptor)
        ensures
            page@ == descriptor::page(
                cache@,
                if cache@.updated_at == 0 {
                    "fresh"@
                } else {
                    "cached"@
                },
            ),
    {
        let status = if cache.updated_at == 0 {
            "fresh"
        } else {
            "cached"
        };
        descriptor::render_view(cache, status)
    }

    /// What a button leads to: `scan` goes on with the scan, `rescan` starts
    /// it over, and anything else shows what is remembered.
    pub fn on_event(event: &str, cache: Cache) -> (response: Response)
        ensures
            event@ == "scan"@ || event@ == "rescan"@ ==> {
                &&& response matches Response::Scan { state, action }
                &&& state@ == (scan::StateView::Listing {
                    cache: scan::opened_cache(cache@, event@ == "rescan"@),
                })
                &&& action@ == (scan::ActionView::ListArtists { limit: scan::ARTIST_SCAN_LIMIT })
            },
            event@ == "scan"@ ==> (response matches Response::Scan { state, .. } && state@ == (
            scan::StateView::Listing { cache: cache@ })),
            event@ != "scan"@ && event@ != "rescan"@ ==> {
                &&& response matches Response::Page { page }
                &&& page@ == descriptor::page(cache@, "cached"@)
            },
    {
        if text::str_eq(event, "scan") {
            proof {
                reveal_strlit("scan");
                reveal_strlit("rescan");
                assert("scan"@.len() != "rescan"@.len());
            }
            let (state, action) = scan::do_scan(cache, false);
            Response::Scan { state, action }
        } else if text::str_eq(event, "rescan") {
            let (state, action) = scan::do_scan(cache, true);
            Response::Scan { state, action }
        } else {
            Response::Page { page: descriptor::render_view(&cache, "cached") }
        }
    }
}

} // verus!
