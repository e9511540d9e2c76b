use vstd::prelude::*;

use crate::classify::{is_audio_file, is_audio_path};
use crate::disk;
use crate::model::{record_for, MusicFile, MusicFileView};
use crate::paths::{base_name, extension_text, rel_folder};

verus! {

/// The mathematical value of a walk's output: each entry as its path text
/// and its regular-file flag.
pub open spec fn entry_views(es: Seq<(String, bool)>) -> Seq<(Seq<char>, bool)> {
    es.map_values(|e: (String, bool)| (e.0@, e.1))
}

/// The mathematical value of a sequence of records.
pub open spec fn record_views(ms: Seq<MusicFile>) -> Seq<MusicFileView> {
    ms.map_values(|m: MusicFile| m@)
}

/// The records a scan rooted at `root` builds from the walked entries, in
/// walk order: one `record_for` per regular file whose path classifies as
/// audio.
pub open spec fn scan_output(root: Seq<char>, es: Seq<(Seq<char>, bool)>) -> Seq<MusicFileView>
    decreases es.len(),
{
    if es.len() == 0 {
        Seq::empty()
    } else {
        let prev = scan_output(root, es.drop_last());
        let e = es.last();
        if e.1 && is_audio_path(e.0) {
            prev.push(record_for(root, e.0))
        } else {
            prev
        }
    }
}

/// What a scan rooted at `root` may say of any record it returns: the
/// record is built from its own path by `record_for`, and that path
/// classifies as audio.
pub open spec fn scan_record_ok(root: Seq<char>, m: MusicFileView) -> bool {
    &&& m == record_for(root, m.path)
    &&& is_audio_path(m.path)
}

/// Every record of a scan's output satisfies `scan_record_ok`.
pub proof fn lemma_scan_output_records(root: Seq<char>, es: Seq<(Seq<char>, bool)>)
    ensures
        forall|i: int|
            0 <= i < scan_output(root, es).len() ==> #[trigger] scan_record_ok(
                root,
                scan_output(root, es)[i],
            ),
    decreases es.len(),
{
    if es.len() > 0 {
        lemma_scan_output_records(root, es.drop_last());
        let prev = scan_output(root, es.drop_last());
        let e = es.last();
        if e.1 && is_audio_path(e.0) {
            assert(scan_record_ok(root, record_for(root, e.0)));
            assert forall|i: int| 0 <= i < scan_output(root, es).len() implies #[trigger]
                scan_record_ok(root, scan_output(root, es)[i]) by {
                if i < prev.len() {
                    assert(scan_output(root, es)[i] == prev[i]);
                } else {
                    assert(scan_output(root, es)[i] == record_for(root, e.0));
                }
            }
        }
    }
}

/// A walk in which no regular file classifies as audio scans to nothing.
pub proof fn lemma_scan_output_empty(root: Seq<char>, es: Seq<(Seq<char>, bool)>)
    requires
        forall|i: int| 0 <= i < es.len() ==> !((#[trigger] es[i]).1 && is_audio_path(es[i].0)),
    ensures
        scan_output(root, es) == Seq::<MusicFileView>::empty(),
    decreases es.len(),
{
    if es.len() > 0 {
        assert(es.last() == es[es.len() - 1]);
        lemma_scan_output_empty(root, es.drop_last());
    }
}

/// The scan is complete: wherever in the walk a regular file with an
/// audio-classified path stands, its record is in the output.
pub proof fn lemma_scan_output_complete(root: Seq<char>, es: Seq<(Seq<char>, bool)>, i: int)
    requires
        0 <= i < es.len(),
        es[i].1,
        is_audio_path(es[i].0),
    ensures
        scan_output(root, es).contains(record_for(root, es[i].0)),
    decreases es.len(),
{
    let out = scan_output(root, es);
    let prev = scan_output(root, es.drop_last());
    if i == es.len() - 1 {
        assert(out[out.len() - 1] == record_for(root, es[i].0));
    } else {
        lemma_scan_output_complete(root, es.drop_last(), i);
        let r = record_for(root, es.drop_last()[i].0);
        let j = choose|j: int| 0 <= j < prev.len() && prev[j] == r;
        assert(out[j] == r);
    }
}

/// Removing one walked entry removes exactly that entry's contribution
/// from the scanned records, taken as a multiset.
proof fn lemma_scan_output_remove(root: Seq<char>, es: Seq<(Seq<char>, bool)>, j: int)
    requires
        0 <= j < es.len(),
    ensures
        scan_output(root, es).to_multiset() == if es[j].1 && is_audio_path(es[j].0) {
            scan_output(root, es.remove(j)).to_multiset().insert(record_for(root, es[j].0))
        } else {
            scan_output(root, es.remove(j)).to_multiset()
        },
    decreases es.len(),
{
    broadcast use vstd::seq_lib::group_to_multiset_ensures;

    let e = es.last();
    let prev = scan_output(root, es.drop_last());
    if j == es.len() - 1 {
        assert(es.remove(j) =~= es.drop_last());
    } else {
        assert(es.remove(j).drop_last() =~= es.drop_last().remove(j));
        assert(es.remove(j).last() == e);
        lemma_scan_output_remove(root, es.drop_last(), j);
        let prevr = scan_output(root, es.drop_last().remove(j));
        if e.1 && is_audio_path(e.0) {
            assert(scan_output(root, es) == prev.push(record_for(root, e.0)));
            assert(scan_output(root, es.remove(j)) == prevr.push(record_for(root, e.0)));
            if es[j].1 && is_audio_path(es[j].0) {
                assert(scan_output(root, es).to_multiset() =~= scan_output(
                    root,
                    es.remove(j),
                ).to_multiset().insert(record_for(root, es[j].0)));
            }
        }
    }
}

/// Scanning is order-independent: walks that hand back the same entries,
/// in whatever order, scan to the same records up to order. With an
/// unchanged tree walked the same way twice, the two results therefore
/// contain the same records.
pub proof fn lemma_scan_output_order_independent(
    root: Seq<char>,
    es1: Seq<(Seq<char>, bool)>,
    es2: Seq<(Seq<char>, bool)>,
)
    requires
        es1.to_multiset() == es2.to_multiset(),
    ensures
        scan_output(root, es1).to_multiset() == scan_output(root, es2).to_multiset(),
    decreases es1.len(),
{
    broadcast use vstd::seq_lib::group_to_multiset_ensures;

    if es1.len() == 0 {
        assert(es1.to_multiset().len() == es1.len());
        assert(es2.to_multiset().len() == es2.len());
    } else {
        let e = es1.last();
        assert(es1[es1.len() - 1] == e);
        assert(es1.contains(e));
        assert(es2.to_multiset().count(e) > 0);
        assert(es2.contains(e));
        let j = choose|j: int| 0 <= j < es2.len() && es2[j] == e;
        assert(es1.remove(es1.len() - 1) =~= es1.drop_last());
        assert(es1.drop_last().to_multiset() == es1.to_multiset().remove(e));
        assert(es2.remove(j).to_multiset() == es2.to_multiset().remove(e));
        lemma_scan_output_order_independent(root, es1.drop_last(), es2.remove(j));
        lemma_scan_output_remove(root, es2, j);
        if e.1 && is_audio_path(e.0) {
            assert(scan_output(root, es1) == scan_output(root, es1.drop_last()).push(
                record_for(root, e.0),
            ));
        }
    }
}

/// The record for one matched file, per `record_for`.
pub fn music_file_for(root: &str, path: &str) -> (m: MusicFile)
    ensures
        m@ == record_for(root@, path@),
{
    let name = base_name(path);
    let extension = match extension_text(path) {
        Some(e) => e,
        None => String::new(),
    };
    let folder = rel_folder(root, path);
    MusicFile { path: path.to_owned(), name, extension, folder }
}

/// The records for the walked entries, per `scan_output`: filtering and
/// record building, for any walk outcome whatsoever.
pub fn collect_music_files(root: &str, entries: &Vec<(String, bool)>) -> (r: Vec<MusicFile>)
    ensures
        record_views(r@) == scan_output(root@, entry_views(entries@)),
{
    let ghost es = entry_views(entries@);
    let mut r: Vec<MusicFile> = Vec::new();
    let mut i: usize = 0;
    while i < entries.len()
        invariant
            i <= entries@.len(),
            es == entry_views(entries@),
            es.len() == entries@.len(),
            record_views(r@) == scan_output(root@, es.take(i as int)),
        decreases entries@.len() - i,
    {
        proof {
            assert(es.take(i + 1).drop_last() =~= es.take(i as int));
            assert(es[i as int] == (entries@[i as int].0@, entries@[i as int].1));
        }
        let e = &entries[i];
        if e.1 && is_audio_file(e.0.as_str()) {
            let ghost before = r@;
            let m = music_file_for(root, e.0.as_str());
            r.push(m);
            proof {
                assert(record_views(before.push(m)) =~= record_views(before).push(m@));
            }
        }
        i = i + 1;
    }
    proof {
        assert(es.take(es.len() as int) =~= es);
    }
    r
}

/// The failure text for a root with no filesystem entry.
pub open spec fn not_found_message(p: Seq<char>) -> Seq<char> {
    "Folder does not exist: "@ + p
}

/// The failure text for a root that is not a directory.
pub open spec fn not_dir_message(p: Seq<char>) -> Seq<char> {
    "Path is not a directory: "@ + p
}

/// Scan a directory for music files: validate the root, walk the tree
/// following symbolic links and skipping unreadable entries, and return
/// one record per regular file whose path classifies as audio.
///
/// Which files exist is the disk's to decide, so the contract states what
/// holds of every outcome: a failure is one of the two validation
/// messages, naming the offending path; every returned record is built
/// from its own audio-classified path by `record_for`. The full relation
/// between a walk's entries and the records stands on
/// `collect_music_files`.
pub fn scan_music_folder(folder_path: String) -> (r: Result<Vec<MusicFile>, String>)
    ensures
        match r {
            Ok(files) => forall|i: int|
                0 <= i < files@.len() ==> #[trigger] scan_record_ok(folder_path@, files@[i]@),
            Err(e) => e@ == not_found_message(folder_path@) || e@ == not_dir_message(
                folder_path@,
            ),
        },
{
    if !disk::path_exists(folder_path.as_str()) {
        return Err("Folder does not exist: ".to_owned().concat(folder_path.as_str()));
    }
    if !disk::path_is_dir(folder_path.as_str()) {
        return Err("Path is not a directory: ".to_owned().concat(folder_path.as_str()));
    }
    let entries = disk::walk_entries(folder_path.as_str());
    let files = collect_music_files(folder_path.as_str(), &entries);
    proof {
        lemma_scan_output_records(folder_path@, entry_views(entries@));
        assert forall|i: int| 0 <= i < files@.len() implies #[trigger] scan_record_ok(
            folder_path@,
            files@[i]@,
        ) by {
            assert(record_views(files@)[i] == files@[i]@);
        }
    }
    Ok(files)
}

/// Whether some filesystem entry is present at the path at the instant of
/// the call. Purely advisory — the disk decides, the answer may be stale
/// at once, and inability to check reads as absent — so nothing is
/// promised of the result.
pub fn file_exists(file_path: String) -> bool {
    disk::path_exists(file_path.as_str())
}

} // verus!
