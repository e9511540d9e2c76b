use vstd::prelude::*;

use crate::paths::{extension_of, extension_text};
use crate::text::{eq_lowered, lower_seq};

verus! {

/// The allow-list of recognized audio extensions, all lowercase. Adding a
/// format means adding one entry here (and its arm in `in_allow_list`).
pub open spec fn audio_extensions() -> Seq<Seq<char>> {
    seq![
        "mp3"@,
        "wav"@,
        "ogg"@,
        "flac"@,
        "aac"@,
        "m4a"@,
        "wma"@,
        "aiff"@,
        "ape"@,
        "opus"@,
        "webm"@,
    ]
}

/// Whether `e`, lowercased, is in the allow-list.
pub open spec fn is_audio_ext(e: Seq<char>) -> bool {
    audio_extensions().contains(lower_seq(e))
}

/// Whether the path has an extension and that extension, lowercased, is in
/// the allow-list.
pub open spec fn is_audio_path(p: Seq<char>) -> bool {
    match extension_of(p) {
        Some(e) => is_audio_ext(e),
        None => false,
    }
}

/// The classifier cannot tell an extension from its lowercased form:
/// membership in the allow-list is decided case-insensitively.
pub proof fn lemma_classifier_case_insensitive(e: Seq<char>)
    ensures
        is_audio_ext(lower_seq(e)) == is_audio_ext(e),
{
    assert(lower_seq(lower_seq(e)) =~= lower_seq(e));
}

/// Allow-list membership of one extension, case-insensitively. The list
/// entries are ASCII, so ASCII lowercasing decides membership.
fn in_allow_list(e: &str) -> (r: bool)
    ensures
        r == is_audio_ext(e@),
{
    let r = eq_lowered(e, "mp3") || eq_lowered(e, "wav") || eq_lowered(e, "ogg") || eq_lowered(
        e,
        "flac",
    ) || eq_lowered(e, "aac") || eq_lowered(e, "m4a") || eq_lowered(e, "wma") || eq_lowered(
        e,
        "aiff",
    ) || eq_lowered(e, "ape") || eq_lowered(e, "opus") || eq_lowered(e, "webm");
    proof {
        let l = lower_seq(e@);
        let exts = audio_extensions();
        if r {
            if l == "mp3"@ {
                assert(exts[0] == l);
            } else if l == "wav"@ {
                assert(exts[1] == l);
            } else if l == "ogg"@ {
                assert(exts[2] == l);
            } else if l == "flac"@ {
                assert(exts[3] == l);
            } else if l == "aac"@ {
                assert(exts[4] == l);
            } else if l == "m4a"@ {
                assert(exts[5] == l);
            } else if l == "wma"@ {
                assert(exts[6] == l);
            } else if l == "aiff"@ {
                assert(exts[7] == l);
            } else if l == "ape"@ {
                assert(exts[8] == l);
            } else {
                assert(exts[9] == l || exts[10] == l);
            }
            assert(exts.contains(l));
        } else {
            assert forall|i: int| 0 <= i < exts.len() implies exts[i] != l by {
                if i == 0 {
                    assert(exts[0] == "mp3"@);
                } else if i == 1 {
                    assert(exts[1] == "wav"@);
                } else if i == 2 {
                    assert(exts[2] == "ogg"@);
                } else if i == 3 {
                    assert(exts[3] == "flac"@);
                } else if i == 4 {
                    assert(exts[4] == "aac"@);
                } else if i == 5 {
                    assert(exts[5] == "m4a"@);
                } else if i == 6 {
                    assert(exts[6] == "wma"@);
                } else if i == 7 {
                    assert(exts[7] == "aiff"@);
                } else if i == 8 {
                    assert(exts[8] == "ape"@);
                } else if i == 9 {
                    assert(exts[9] == "opus"@);
                } else {
                    assert(exts[10] == "webm"@);
                }
            }
        }
    }
    r
}

/// Whether the path names an audio file by its extension, per
/// `is_audio_path`.
pub fn is_audio_file(path: &str) -> (r: bool)
    ensures
        r == is_audio_path(path@),
{
    match extension_text(path) {
        Some(e) => in_allow_list(e.as_str()),
        None => false,
    }
}

} // verus!
