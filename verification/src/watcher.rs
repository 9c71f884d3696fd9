//! What the file watcher decides: whether a batch of file events calls for
//! reloading the mocks.
use vstd::prelude::*;

verus! {

/// One debounced file event: the extension of the file's path, if it has
/// one, and whether the event is of the plain `Any` kind.
pub struct FileChange {
    pub extension: Option<String>,
    pub is_any_kind: bool,
}

/// The event is a change to a YAML file: its extension is `yaml` or `yml`
/// and it is of the plain kind.
pub open spec fn is_mock_file_change(change: FileChange) -> bool {
    &&& match change.extension {
        Some(ext) => ext@ == "yaml"@ || ext@ == "yml"@,
        None => false,
    }
    &&& change.is_any_kind
}

/// Whether one event is a change to a YAML file.
pub fn mock_file_changed(change: &FileChange) -> (r: bool)
    ensures
        r == is_mock_file_change(*change),
{
    let yaml = "yaml".to_owned();
    let yml = "yml".to_owned();
    let is_yaml = match &change.extension {
        Some(ext) => *ext == yaml || *ext == yml,
        None => false,
    };
    is_yaml && change.is_any_kind
}

/// Whether a batch of events calls for a reload: some event in it is a change
/// to a YAML file.
pub fn has_mock_file_changes(changes: &Vec<FileChange>) -> (r: bool)
    ensures
        r == exists|i: int| 0 <= i < changes@.len() && is_mock_file_change(#[trigger] changes@[i]),
{
    let n = changes.len();
    for i in 0..n
        invariant
            n == changes@.len(),
            forall|j: int| 0 <= j < i ==> !is_mock_file_change(#[trigger] changes@[j]),
    {
        if mock_file_changed(&changes[i]) {
            return true;
        }
    }
    false
}

} // verus!
