//! Pausing and resuming chapter downloads: one flag per chapter key.
use vstd::prelude::*;
use crate::store::KeyedStore;
use crate::text::push_char;

verus! {

/// The pause flags of chapter downloads, filed under their pause keys.
pub type CartoonPauseFlags = KeyedStore<bool>;

/// The pause key of a chapter: `cartoon|chapter`.
pub open spec fn pause_key_of(cartoon: Seq<char>, chapter: Seq<char>) -> Seq<char> {
    cartoon + seq!['|'] + chapter
}

/// The progress key of a chapter: `cartoon_chapter`.
pub open spec fn progress_key_of(cartoon: Seq<char>, chapter: Seq<char>) -> Seq<char> {
    cartoon + seq!['_'] + chapter
}

/// Whether the flags say that the download under `key` is paused: a key
/// that was never set, or was cleared, is not paused.
pub open spec fn paused_in(flags: Map<Seq<char>, bool>, key: Seq<char>) -> bool {
    flags.contains_key(key) && flags[key]
}

/// `left`, then `sep`, then `right`.
fn joined(left: &str, sep: char, right: &str) -> (r: String)
    ensures
        r@ == left@ + seq![sep] + right@,
{
    let mut r = String::from_str(left);
    push_char(&mut r, sep);
    r.append(right);
    r
}

/// The key under which a chapter's pause flag is filed.
pub fn chapter_pause_key(cartoon_uuid: &str, chapter_uuid: &str) -> (r: String)
    ensures
        r@ == pause_key_of(cartoon_uuid@, chapter_uuid@),
{
    joined(cartoon_uuid, '|', chapter_uuid)
}

/// The key under which a chapter's download progress is filed.
pub fn chapter_progress_key(cartoon_uuid: &str, chapter_uuid: &str) -> (r: String)
    ensures
        r@ == progress_key_of(cartoon_uuid@, chapter_uuid@),
{
    joined(cartoon_uuid, '_', chapter_uuid)
}

/// Sets the pause flag under `chapter_key`.
pub fn set_cartoon_pause_flag(flags: &mut CartoonPauseFlags, chapter_key: &str, paused: bool)
    requires
        old(flags).wf(),
    ensures
        final(flags).wf(),
        final(flags)@ == old(flags)@.insert(chapter_key@, paused),
{
    flags.insert(chapter_key, paused);
}

/// Whether the download under `chapter_key` is paused; `false` when no flag is set.
pub fn is_cartoon_paused(flags: &CartoonPauseFlags, chapter_key: &str) -> (r: bool)
    requires
        flags.wf(),
    ensures
        r == paused_in(flags@, chapter_key@),
{
    match flags.get(chapter_key) {
        Some(p) => *p,
        None => false,
    }
}

/// Forgets the pause flag under `chapter_key`.
pub fn clear_cartoon_pause_flag(flags: &mut CartoonPauseFlags, chapter_key: &str)
    requires
        old(flags).wf(),
    ensures
        final(flags).wf(),
        final(flags)@ == old(flags)@.remove(chapter_key@),
{
    flags.remove(chapter_key);
}

/// Pauses the download of a chapter; always answers `Ok(true)`.
pub fn pause_cartoon_download(
    flags: &mut CartoonPauseFlags,
    cartoon_uuid: &str,
    chapter_uuid: &str,
) -> (r: Result<bool, String>)
    requires
        old(flags).wf(),
    ensures
        final(flags).wf(),
        final(flags)@ == old(flags)@.insert(pause_key_of(cartoon_uuid@, chapter_uuid@), true),
        r == Ok::<bool, String>(true),
{
    let key = chapter_pause_key(cartoon_uuid, chapter_uuid);
    set_cartoon_pause_flag(flags, key.as_str(), true);
    Ok(true)
}

/// Resumes the download of a chapter; always answers `Ok(true)`.
pub fn resume_cartoon_download(
    flags: &mut CartoonPauseFlags,
    cartoon_uuid: &str,
    chapter_uuid: &str,
) -> (r: Result<bool, String>)
    requires
        old(flags).wf(),
    ensures
        final(flags).wf(),
        final(flags)@ == old(flags)@.insert(pause_key_of(cartoon_uuid@, chapter_uuid@), false),
        r == Ok::<bool, String>(true),
{
    let key = chapter_pause_key(cartoon_uuid, chapter_uuid);
    set_cartoon_pause_flag(flags, key.as_str(), false);
    Ok(true)
}

/// After a chapter is paused it reads as paused; after it is resumed, or its
/// flag is cleared, it reads as not paused.
pub proof fn lemma_pause_resume_read_back(
    flags: Map<Seq<char>, bool>,
    cartoon: Seq<char>,
    chapter: Seq<char>,
)
    ensures
        paused_in(flags.insert(pause_key_of(cartoon, chapter), true), pause_key_of(cartoon, chapter)),
        !paused_in(
            flags.insert(pause_key_of(cartoon, chapter), false),
            pause_key_of(cartoon, chapter),
        ),
        !paused_in(flags.remove(pause_key_of(cartoon, chapter)), pause_key_of(cartoon, chapter)),
{
}

/// Setting or clearing the flag under one key leaves every other key as it read before.
pub proof fn lemma_flags_independent(
    flags: Map<Seq<char>, bool>,
    key: Seq<char>,
    other: Seq<char>,
    paused: bool,
)
    requires
        key != other,
    ensures
        paused_in(flags.insert(key, paused), other) == paused_in(flags, other),
        paused_in(flags.remove(key), other) == paused_in(flags, other),
{
}

/// Resuming after pausing leaves a chapter as if it had only been resumed:
/// the last call wins.
pub proof fn lemma_last_call_wins(
    flags: Map<Seq<char>, bool>,
    key: Seq<char>,
    first: bool,
    second: bool,
)
    ensures
        flags.insert(key, first).insert(key, second) == flags.insert(key, second),
{
    assert(flags.insert(key, first).insert(key, second) =~= flags.insert(key, second));
}

/// The pause key and the progress key of a chapter differ, at the
/// character right after the cartoon id.
pub proof fn lemma_pause_and_progress_keys_differ(cartoon: Seq<char>, chapter: Seq<char>)
    ensures
        pause_key_of(cartoon, chapter) != progress_key_of(cartoon, chapter),
{
    assert(pause_key_of(cartoon, chapter)[cartoon.len() as int] == '|');
    assert(progress_key_of(cartoon, chapter)[cartoon.len() as int] == '_');
}

} // verus!
