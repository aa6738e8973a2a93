//! What the windows laid over the main window share: the app's colours and
//! the WebView2 flags they are started with.
use vstd::prelude::*;

verus! {

/// The app theme's colours, read from the main window's CSS so a window laid
/// over it matches without a second copy of the palette.
#[derive(Debug, Clone, PartialEq, Eq)]
pub struct Palette {
    pub bg: String,
    pub text: String,
    pub dark: bool,
}

/// WebView2 flags both overlay windows need. Without them the widget treats
/// the WebView as automation and serves endless image challenges, and
/// tracking prevention starves cross-origin frames of the storage they need.
pub const BROWSER_ARGS: &'static str = "--disable-blink-features=AutomationControlled --disable-features=msWebOOUI,msPdfOOUI,msSmartScreenProtection,ThirdPartyStoragePartitioning,PartitionedCookies,msEdgeTrackingPrevention";

} // verus!
