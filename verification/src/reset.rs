//! Going back to defaults: what a reset clears and which saved files it removes.
use vstd::prelude::*;
use crate::batches::UploadBatches;
use crate::settings::{AppSettings, reset_sound_name};
use crate::shares::{ShareStore, ReceivedFile, FileEntry, texts};

verus! {

/// The saved files that a reset deletes from the data directory.
pub open spec fn reset_removed_files() -> Seq<Seq<char>> {
    seq!["received.json"@, "shares.json"@, "bundles.json"@]
}

/// Resets everything to defaults: the received records, the shares and the
/// batch counters are cleared; tray mode and clear-on-close go off and the
/// default sound comes back on, while language, language mode, automatic
/// receiving and auto-destroy stay. Returns the names of the saved files to
/// delete (after saving the emptied state).
pub fn reset_to_defaults(
    received: &mut Vec<ReceivedFile>,
    store: &mut ShareStore,
    settings: &mut AppSettings,
    batches: &mut UploadBatches,
) -> (removed: Vec<String>)
    ensures
        final(received)@.len() == 0,
        final(store).file_map() == Map::<Seq<char>, FileEntry>::empty(),
        final(store).bundle_map() == Map::<Seq<char>, Vec<String>>::empty(),
        final(settings).sound_name@ == reset_sound_name(),
        *final(settings) == (AppSettings {
            tray_mode: false,
            clear_on_close: false,
            sound_enabled: true,
            sound_name: final(settings).sound_name,
            ..*old(settings)
        }),
        *final(batches) == (UploadBatches { upload_batch: 0, batch_expected: 0, batch_received_count: 0 }),
        texts(removed@) == reset_removed_files(),
{
    received.clear();
    store.clear_all_shares();
    settings.reset_defaults();
    *batches = UploadBatches::new();
    let mut removed: Vec<String> = Vec::new();
    removed.push(String::from_str("received.json"));
    removed.push(String::from_str("shares.json"));
    removed.push(String::from_str("bundles.json"));
    assert(texts(removed@) =~= reset_removed_files());
    removed
}

}
