use cartoon_download::pause::{
    chapter_pause_key, chapter_progress_key, clear_cartoon_pause_flag, is_cartoon_paused,
    pause_cartoon_download, resume_cartoon_download, set_cartoon_pause_flag, CartoonPauseFlags,
};

#[test]
fn keys_join_the_ids() {
    assert_eq!(chapter_pause_key("c1", "ch2"), "c1|ch2");
    assert_eq!(chapter_progress_key("c1", "ch2"), "c1_ch2");
    assert_ne!(chapter_pause_key("a", "b"), chapter_progress_key("a", "b"));
}

#[test]
fn unknown_key_is_not_paused() {
    let flags = CartoonPauseFlags::new();
    assert!(!is_cartoon_paused(&flags, "x|y"));
}

#[test]
fn flags_read_back_what_was_set() {
    let mut flags = CartoonPauseFlags::new();
    set_cartoon_pause_flag(&mut flags, "a|b", true);
    assert!(is_cartoon_paused(&flags, "a|b"));
    set_cartoon_pause_flag(&mut flags, "a|b", false);
    assert!(!is_cartoon_paused(&flags, "a|b"));
    set_cartoon_pause_flag(&mut flags, "a|b", true);
    clear_cartoon_pause_flag(&mut flags, "a|b");
    assert!(!is_cartoon_paused(&flags, "a|b"));
}

#[test]
fn pause_and_resume_answer_true_and_set_the_flag() {
    let mut flags = CartoonPauseFlags::new();
    assert_eq!(pause_cartoon_download(&mut flags, "cart", "chap"), Ok(true));
    assert!(is_cartoon_paused(&flags, "cart|chap"));
    assert_eq!(resume_cartoon_download(&mut flags, "cart", "chap"), Ok(true));
    assert!(!is_cartoon_paused(&flags, "cart|chap"));
}

#[test]
fn flags_of_other_chapters_are_untouched() {
    let mut flags = CartoonPauseFlags::new();
    pause_cartoon_download(&mut flags, "c", "1").unwrap();
    pause_cartoon_download(&mut flags, "c", "2").unwrap();
    resume_cartoon_download(&mut flags, "c", "1").unwrap();
    assert!(!is_cartoon_paused(&flags, "c|1"));
    assert!(is_cartoon_paused(&flags, "c|2"));
    clear_cartoon_pause_flag(&mut flags, "c|1");
    assert!(is_cartoon_paused(&flags, "c|2"));
}
