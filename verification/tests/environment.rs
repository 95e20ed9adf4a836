use marp_video::environment::config::{
    default_ffmpeg_bin, default_ffprobe_bin, default_height, default_marp_bin, default_tts_bin,
    default_frame_rate, default_video_container, default_width, find_named, names_are_distinct,
    names_distinct, Config, Dependencies, Ffmpeg, Ffprobe, Marp, Profile, Tts,
};
use marp_video::environment::{Environment, EnvironmentError};
use marp_video::text::{push_strings, same_text};

fn strings(items: &[&str]) -> Vec<String> {
    items.iter().map(|s| s.to_string()).collect()
}

fn profile(container: &str, width: usize, height: usize) -> Profile {
    Profile {
        ffmpeg_args: strings(&["-r", "30"]),
        marp_args: strings(&["--theme", "plain"]),
        video_container: container.to_string(),
        width,
        height,
        frame_rate: 30,
    }
}

fn settings(cache_dir: &str) -> Config {
    Config {
        cache_dir: cache_dir.to_string(),
        dep: Dependencies {
            ffprobe: Ffprobe { bin: "ffprobe".to_string() },
            ffmpeg: Ffmpeg { bin: "ffmpeg".to_string(), global_args: strings(&["-loglevel", "warning"]) },
            marp: Marp {
                bin: "marp".to_string(),
                global_args: strings(&["--allow-local-files"]),
                envs: vec![("LANG".to_string(), "C".to_string())],
            },
        },
        tts: vec![
            (
                "default".to_string(),
                Tts {
                    bin: "say".to_string(),
                    args: strings(&["--fast"]),
                    envs: vec![("KEY".to_string(), "value".to_string())],
                },
            ),
            ("alice".to_string(), Tts { bin: "alice-tts".to_string(), args: vec![], envs: vec![] }),
        ],
        profile: vec![
            ("default".to_string(), profile("mp4", 1280, 720)),
            ("small".to_string(), profile("webm", 640, 360)),
        ],
    }
}

fn run(cache_dir: &str, profile: &str) -> Environment {
    Environment::try_init(settings(cache_dir), "/docs/deck.md", profile).unwrap()
}

#[test]
fn defaults_are_the_usual_programs() {
    assert_eq!(default_ffprobe_bin(), "ffprobe");
    assert_eq!(default_ffmpeg_bin(), "ffmpeg");
    assert_eq!(default_marp_bin(), "marp");
    assert_eq!(default_tts_bin(), "marp-video-tts");
    assert_eq!(default_video_container(), "mp4");
    assert_eq!(default_width(), 1280);
    assert_eq!(default_height(), 720);
    assert_eq!(default_frame_rate(), 30);
}

#[test]
fn same_text_compares_strings() {
    assert!(same_text("default", "default"));
    assert!(!same_text("default", "Default"));
    assert!(!same_text("", "a"));
}

#[test]
fn find_named_gives_the_first_entry_of_a_name() {
    let entries = vec![("a".to_string(), 1), ("b".to_string(), 2), ("a".to_string(), 3)];
    assert_eq!(find_named(&entries, "a"), 0);
    assert_eq!(find_named(&entries, "b"), 1);
    assert_eq!(find_named(&entries, "c"), 3);
    assert!(!names_distinct(&entries));
    assert!(names_distinct(&entries[..2].to_vec()));
    assert!(names_distinct(&Vec::<(String, u8)>::new()));
}

#[test]
fn push_strings_appends_copies() {
    let mut out = strings(&["a"]);
    push_strings(&mut out, &strings(&["b", "c"]));
    assert_eq!(out, strings(&["a", "b", "c"]));
}

#[test]
fn try_init_needs_the_profile() {
    let r = Environment::try_init(settings(".cache"), "/docs/deck.md", "large");
    assert_eq!(r.err(), Some(EnvironmentError::ProfileNotConfigured));
    let mut empty = settings(".cache");
    empty.profile.clear();
    let r = Environment::try_init(empty, "/docs/deck.md", "default");
    assert_eq!(r.err(), Some(EnvironmentError::ProfileNotConfigured));
}

#[test]
fn try_init_refuses_a_name_twice() {
    let mut twice = settings(".cache");
    twice.profile.push(("default".to_string(), profile("mkv", 1, 1)));
    let r = Environment::try_init(twice, "/docs/deck.md", "default");
    assert_eq!(r.err(), Some(EnvironmentError::DuplicateName));
    let mut twice = settings(".cache");
    twice.tts.push(("alice".to_string(), Tts { bin: "x".to_string(), args: vec![], envs: vec![] }));
    let r = Environment::try_init(twice, "/docs/deck.md", "large");
    assert_eq!(r.err(), Some(EnvironmentError::DuplicateName));
}

#[test]
fn the_chosen_profile_gives_the_video() {
    let env = run(".cache", "default");
    assert_eq!(env.video_width(), 1280);
    assert_eq!(env.video_height(), 720);
    assert_eq!(env.video_container(), "mp4");
    let env = run(".cache", "small");
    assert_eq!(env.video_width(), 640);
    assert_eq!(env.video_height(), 360);
    assert_eq!(env.video_container(), "webm");
}

#[test]
fn additional_args_are_global_then_profile() {
    let env = run(".cache", "default");
    assert_eq!(env.marp_additional_args(), strings(&["--allow-local-files", "--theme", "plain"]));
    assert_eq!(env.ffmpeg_additional_args(), strings(&["-loglevel", "warning", "-r", "30"]));
}

#[test]
fn programs_come_from_the_settings() {
    let env = run(".cache", "default");
    assert_eq!(env.ffmpeg_bin(), "ffmpeg");
    assert_eq!(env.marp_bin(), "marp");
    assert_eq!(env.ffprobe_bin(), "ffprobe");
    assert_eq!(env.marp_envs(), &vec![("LANG".to_string(), "C".to_string())]);
}

#[test]
fn voices_come_from_the_settings() {
    let env = run(".cache", "default");
    assert!(env.tts_is_profile_exists("default"));
    assert!(env.tts_is_profile_exists("alice"));
    assert!(!env.tts_is_profile_exists("bob"));
    assert_eq!(env.tts_bin("default"), "say");
    assert_eq!(env.tts_bin("alice"), "alice-tts");
    assert_eq!(env.tts_additional_args("default"), &strings(&["--fast"]));
    assert_eq!(env.tts_envs("default"), &vec![("KEY".to_string(), "value".to_string())]);
    assert!(env.tts_envs("alice").is_empty());
}

#[test]
fn the_document_has_a_path_and_a_directory() {
    let env = run(".cache", "default");
    assert_eq!(env.md_path(), "/docs/deck.md");
    assert_eq!(env.md_dir(), "/docs");
}

#[test]
fn the_cache_is_taken_from_the_document_unless_rooted() {
    assert_eq!(run(".cache", "default").cache_root_dir(), "/docs/.cache");
    assert_eq!(run("/var/cache/mv", "default").cache_root_dir(), "/var/cache/mv");
}

#[test]
fn cache_entries_are_named_by_md5() {
    let env = run("/c", "default");
    assert_eq!(env.voice_cache_dir("default"), "/c/voice_c21f969b5f03d33d43e04f8f136e7682");
    assert_eq!(env.voice_cache_dir("alice"), "/c/voice_6384e2b2184bcbf58eccf10ca7a6563c");
    assert_eq!(
        env.voice_cache("default", "Hello"),
        "/c/voice_c21f969b5f03d33d43e04f8f136e7682/8b1a9953c4611296a827abf8c47804d7.bin"
    );
    assert_eq!(env.project_root_dir(), "/c/work_16d808577e65354fb1b2527fb46a28b9");
}

#[test]
fn try_init_needs_a_frame_rate() {
    for frame_rate in [0, 1_000_001, u32::MAX] {
        let mut odd = settings(".cache");
        odd.profile[1].1.frame_rate = frame_rate;
        let r = Environment::try_init(odd, "/docs/deck.md", "small");
        assert_eq!(r.err(), Some(EnvironmentError::FrameRate));
    }
    let mut odd = settings(".cache");
    odd.profile[1].1.frame_rate = 0;
    let env = Environment::try_init(odd, "/docs/deck.md", "default").unwrap();
    assert_eq!(env.video_frame_rate(), 30);
    assert_eq!(env.frame_period(), 33_333);
    let mut fast = settings(".cache");
    fast.profile[0].1.frame_rate = 60;
    let env = Environment::try_init(fast, "/docs/deck.md", "default").unwrap();
    assert_eq!(env.video_frame_rate(), 60);
    assert_eq!(env.frame_period(), 16_666);
}

#[test]
fn try_init_refuses_an_environment_variable_twice() {
    let mut twice = settings(".cache");
    twice.dep.marp.envs.push(("LANG".to_string(), "de".to_string()));
    let r = Environment::try_init(twice, "/docs/deck.md", "default");
    assert_eq!(r.err(), Some(EnvironmentError::DuplicateName));
    let mut twice = settings(".cache");
    twice.tts[1].1.envs = vec![("A".to_string(), "1".to_string()), ("A".to_string(), "2".to_string())];
    let r = Environment::try_init(twice, "/docs/deck.md", "default");
    assert_eq!(r.err(), Some(EnvironmentError::DuplicateName));
    assert!(names_are_distinct(&settings(".cache")));
}
