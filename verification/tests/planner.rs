use marp_video::application::ffmpeg::{encode_args, output_file, to_filter_complex};
use marp_video::application::ffprobe::{measure_args, parse_duration};
use marp_video::application::marp::marp_args;
use marp_video::application::tts::tts_command;
use marp_video::application::{check_exit, check_output, RunError};
use marp_video::text::push_text;
use marp_video::asset_preparator::{prepare, sound_requests, PrepareError, Sound, SoundRequest};
use marp_video::environment::config::{
    Config, Dependencies, Ffmpeg, Ffprobe, Marp, Profile, Tts,
};
use marp_video::environment::Environment;
use marp_video::event::Event;
use marp_video::event_parser::{DocEvents, Frontmatter, RawFgSoundEvent, RawVoiceEvent};
use marp_video::planner::{
    checked_total, count_slides, ffmpeg_escape, plan, plan_bg_audio_stream, plan_fg_audio_stream,
    plan_video_stream, push_escaped, DocumentChannels, PlanError,
};

type Raw = Event<RawVoiceEvent, RawFgSoundEvent>;
type Timed = Event<Sound, Sound>;

const TAIL: &str = ",scale=1280:720,setsar=1:1,loop=-1:1,trim=duration=";

fn strings(items: &[&str]) -> Vec<String> {
    items.iter().map(|s| s.to_string()).collect()
}

fn run() -> Environment {
    run_at(30)
}

fn run_at(frame_rate: u32) -> Environment {
    let config = Config {
        cache_dir: "/cache".to_string(),
        dep: Dependencies {
            ffprobe: Ffprobe { bin: "ffprobe".to_string() },
            ffmpeg: Ffmpeg { bin: "ffmpeg".to_string(), global_args: strings(&["-loglevel", "warning"]) },
            marp: Marp { bin: "marp".to_string(), global_args: strings(&["--html"]), envs: vec![] },
        },
        tts: vec![(
            "default".to_string(),
            Tts { bin: "say".to_string(), args: strings(&["--fast", "-q"]), envs: vec![] },
        )],
        profile: vec![(
            "default".to_string(),
            Profile {
                ffmpeg_args: strings(&["-r", "30"]),
                marp_args: strings(&["--theme", "plain"]),
                video_container: "mp4".to_string(),
                width: 1280,
                height: 720,
                frame_rate,
            },
        )],
    };
    Environment::try_init(config, "/docs/deck.md", "default").unwrap()
}

fn voice(micros: u64) -> Timed {
    Event::Voice(Sound { duration: micros, path: "/cache/v.bin".to_string(), volume: 100_000 })
}

fn effect(micros: u64, path: &str, volume: u64) -> Timed {
    Event::SoundEffect(Sound { duration: micros, path: path.to_string(), volume })
}

fn slide(n: usize) -> Timed {
    Event::MPageMarker { marp_page_nth: n }
}

fn music(path: Option<&str>, volume: u64) -> Timed {
    Event::MVBGMMarker { path: path.map(|p| p.to_string()), volume }
}

#[test]
fn escaping_guards_every_reserved_character() {
    let escaped = ffmpeg_escape(": \\ ' = ; , [ ]");
    assert_eq!(escaped, "\\\\: \\\\\\\\ \\\\\\' \\= \\; \\, \\[ \\]");
    let chars: Vec<char> = escaped.chars().collect();
    for (i, c) in chars.iter().enumerate() {
        if ":'=;,[]".contains(*c) {
            assert!(i > 0 && chars[i - 1] == '\\');
        }
    }
}

#[test]
fn escaping_leaves_other_characters() {
    assert_eq!(ffmpeg_escape("/docs/a b/music-1.mp3"), "/docs/a b/music-1.mp3");
    assert_eq!(ffmpeg_escape(""), "");
    assert_eq!(ffmpeg_escape("C:\\x"), "C\\\\:\\\\\\\\x");
    assert_eq!(ffmpeg_escape("a=b"), "a\\=b");
    let mut out = vec!['x'];
    push_escaped(&mut out, &vec!['[', 'a', ']']);
    assert_eq!(out.iter().collect::<String>(), "x\\[a\\]");
}

#[test]
fn escaping_is_what_replacing_one_after_the_other_gives() {
    for s in [": \\ ' = ; , [ ]", "a\\:b", "''", "\\\\", "x=1;y=[2,3]", "plain"] {
        let expected = s
            .replace("\\", "\\\\\\\\")
            .replace(":", "\\\\:")
            .replace("'", "\\\\\\'")
            .replace("=", "\\=")
            .replace(";", "\\;")
            .replace(",", "\\,")
            .replace("[", "\\[")
            .replace("]", "\\]");
        assert_eq!(ffmpeg_escape(s), expected);
    }
}

#[test]
fn requests_follow_the_events() {
    let env = run();
    let events: Vec<Raw> = vec![
        Event::MPageMarker { marp_page_nth: 1 },
        Event::Voice(RawVoiceEvent { text: "Hello".to_string(), profile: "default".to_string() }),
        Event::BlankMs(500),
        Event::SoundEffect(RawFgSoundEvent { path: "/docs/ding.wav".to_string(), volume: 50_000 }),
    ];
    let requests = sound_requests(&env, &events);
    assert_eq!(requests.len(), 2);
    match &requests[0] {
        SoundRequest::Voice { profile, text, path } => {
            assert_eq!(profile, "default");
            assert_eq!(text, "Hello");
            assert_eq!(
                path,
                "/cache/voice_c21f969b5f03d33d43e04f8f136e7682/8b1a9953c4611296a827abf8c47804d7.bin"
            );
        }
        other => panic!("{:?}", other),
    }
    match &requests[1] {
        SoundRequest::SoundEffect { path } => assert_eq!(path, "/docs/ding.wav"),
        other => panic!("{:?}", other),
    }
    assert!(sound_requests(&env, &vec![]).is_empty());
}

#[test]
fn prepare_joins_lengths_to_events_by_position() {
    let env = run();
    let events: Vec<Raw> = vec![
        Event::CPageMarker { color: "black".to_string() },
        Event::SoundEffect(RawFgSoundEvent { path: "/docs/ding.wav".to_string(), volume: 50_000 }),
        Event::MVBGMMarker { path: Some("/docs/m.mp3".to_string()), volume: 20_000 },
        Event::IPageMarker { path: "/docs/a.png".to_string() },
        Event::Voice(RawVoiceEvent { text: "Hello".to_string(), profile: "default".to_string() }),
        Event::BlankMs(500),
        Event::MPageMarker { marp_page_nth: 1 },
    ];
    let sounds = prepare(&env, &events, &vec![Some(250_000), Some(1_200_000)]).unwrap();
    let shown: Vec<String> = sounds.iter().map(|e| format!("{:?}", e)).collect();
    assert_eq!(
        shown,
        vec![
            "CPageMarker { color: \"black\" }",
            "SoundEffect(Sound { duration: 250000, path: \"/docs/ding.wav\", volume: 50000 })",
            "MVBGMMarker { path: Some(\"/docs/m.mp3\"), volume: 20000 }",
            "IPageMarker { path: \"/docs/a.png\" }",
            "Voice(Sound { duration: 1200000, path: \"/cache/voice_c21f969b5f03d33d43e04f8f136e7682/8b1a9953c4611296a827abf8c47804d7.bin\", volume: 100000 })",
            "BlankMs(500)",
            "MPageMarker { marp_page_nth: 1 }",
        ]
    );
}

#[test]
fn prepare_reports_the_first_failure() {
    let env = run();
    let say = |text: &str| -> Raw {
        Event::Voice(RawVoiceEvent { text: text.to_string(), profile: "default".to_string() })
    };
    let events = vec![say("a"), Event::BlankMs(1), say("b"), say("c")];
    let r = prepare(&env, &events, &vec![Some(1), None, None]);
    assert_eq!(r.err(), Some(PrepareError::Failed { request: 1 }));
    let r = prepare(&env, &events, &vec![None, Some(1), Some(1)]);
    assert_eq!(r.err(), Some(PrepareError::Failed { request: 0 }));
    let r = prepare(&env, &events, &vec![Some(1), Some(1)]);
    assert_eq!(r.err(), Some(PrepareError::OutcomeCount));
    let r = prepare(&env, &events, &vec![Some(1), Some(1), Some(1), None]);
    assert_eq!(r.err(), Some(PrepareError::OutcomeCount));
    assert!(prepare(&env, &vec![], &vec![]).unwrap().is_empty());
}

#[test]
fn sums_are_additive() {
    let events = vec![voice(1_200_000), slide(1), Event::BlankMs(500), effect(7, "/x", 1), music(None, 1)];
    let whole = checked_total(&events).unwrap();
    assert_eq!(whole, 1_700_007);
    for cut in 0..=events.len() {
        let head = checked_total(&events[..cut].to_vec()).unwrap();
        let tail = checked_total(&events[cut..].to_vec()).unwrap();
        assert_eq!(head + tail, whole);
    }
    assert_eq!(checked_total(&vec![]), Some(0));
}

#[test]
fn sums_that_do_not_fit_are_refused() {
    let events = vec![slide(1), voice(u64::MAX), Event::BlankMs(1)];
    assert_eq!(checked_total(&events), None);
    assert_eq!(plan(&run(), &events).err(), Some(PlanError::DurationOverflow));
    let events: Vec<Timed> = vec![slide(1), Event::BlankMs(usize::MAX)];
    assert_eq!(checked_total(&events), None);
    assert_eq!(checked_total(&vec![voice(u64::MAX)]), Some(u64::MAX));
}

#[test]
fn foreground_has_one_source_for_each_sound_and_silence() {
    let env = run();
    let events = vec![
        slide(1),
        voice(1_200_000),
        music(Some("/docs/m.mp3"), 50_000),
        Event::BlankMs(500),
        slide(2),
        effect(250_000, "se/a:b.wav", 12_500),
        Event::BlankMs(1234),
    ];
    assert_eq!(
        plan_fg_audio_stream(&env, &events),
        strings(&[
            "amovie=/cache/v.bin,volume=1",
            "anullsrc,atrim=duration=0.5",
            "amovie=/docs/se/a\\\\:b.wav,volume=0.125",
            "anullsrc,atrim=duration=1.234",
        ])
    );
    assert!(plan_fg_audio_stream(&env, &vec![slide(1), music(None, 1)]).is_empty());
}

#[test]
fn background_has_one_segment_more_than_markers() {
    let env = run();
    let events = vec![
        slide(1),
        voice(1_200_000),
        Event::BlankMs(500),
        music(Some("/docs/m.mp3"), 50_000),
        voice(2_000_000),
        slide(2),
        effect(250_000, "/x.wav", 100_000),
        music(None, 30_000),
        Event::BlankMs(10),
        music(Some("n.mp3"), 250_000),
    ];
    assert_eq!(
        plan_bg_audio_stream(&env, &events).unwrap(),
        strings(&[
            "anullsrc,atrim=duration=1.7",
            "amovie=/docs/m.mp3,volume=0.5,aloop=-1:2147483647,atrim=duration=2.25",
            "anullsrc,volume=0.3,atrim=duration=0.01",
            "amovie=/docs/n.mp3,volume=2.5,aloop=-1:2147483647,atrim=duration=0",
        ])
    );
}

#[test]
fn background_without_markers_is_one_silence() {
    let env = run();
    assert_eq!(
        plan_bg_audio_stream(&env, &vec![slide(1), voice(3_000_000)]).unwrap(),
        strings(&["anullsrc,atrim=duration=3"])
    );
    assert_eq!(plan_bg_audio_stream(&env, &vec![]).unwrap(), strings(&["anullsrc,atrim=duration=0"]));
    assert_eq!(
        plan_bg_audio_stream(&env, &vec![music(None, 100_000), voice(1_000_000)]).unwrap(),
        strings(&["anullsrc,atrim=duration=0", "anullsrc,volume=1,atrim=duration=1"])
    );
}

#[test]
fn video_has_one_source_for_each_page_that_is_shown() {
    let env = run();
    let events = vec![
        slide(1),
        voice(1_200_000),
        music(None, 1),
        Event::BlankMs(500),
        Event::IPageMarker { path: "/docs/a,b.png".to_string() },
        effect(250_000, "/x.wav", 100_000),
        Event::CPageMarker { color: "#00ff00".to_string() },
        voice(120_000),
        slide(12),
        Event::BlankMs(2000),
        slide(1234),
        voice(1_000_000),
    ];
    assert_eq!(
        plan_video_stream(&env, &events).unwrap(),
        vec![
            format!("movie=./marp_doc.001{}1.7", TAIL),
            format!("movie=/docs/a\\,b.png{}0.25", TAIL),
            format!("color=c=#00ff00{}0.12", TAIL),
            format!("movie=./marp_doc.012{}2", TAIL),
            format!("movie=./marp_doc.1234{}1", TAIL),
        ]
    );
}

#[test]
fn a_colour_is_escaped_like_a_path() {
    let env = run();
    let events = vec![Event::CPageMarker { color: "red:0.5".to_string() }, voice(1_000_000)];
    assert_eq!(plan_video_stream(&env, &events).unwrap(), vec![format!("color=c=red\\\\:0.5{}1", TAIL)]);
}

#[test]
fn pages_shorter_than_one_frame_are_left_out() {
    let env = run();
    assert_eq!(env.video_frame_rate(), 30);
    assert_eq!(env.frame_period(), 33_333);
    let events = vec![slide(1), Event::BlankMs(10)];
    assert!(plan_video_stream(&env, &events).unwrap().is_empty());
    assert_eq!(plan(&env, &events).err(), Some(PlanError::NoVideo));
    let events = vec![slide(1), Event::BlankMs(50)];
    assert_eq!(
        plan_video_stream(&env, &events).unwrap(),
        vec![format!("movie=./marp_doc.001{}0.05", TAIL)]
    );
    let events = vec![slide(1), voice(33_332), slide(2), voice(33_333), slide(3), voice(33_334)];
    assert_eq!(
        plan_video_stream(&env, &events).unwrap(),
        vec![
            format!("movie=./marp_doc.002{}0.033333", TAIL),
            format!("movie=./marp_doc.003{}0.033334", TAIL),
        ]
    );
    assert!(plan_video_stream(&env, &vec![slide(1)]).unwrap().is_empty());
    assert!(plan_video_stream(&env, &vec![voice(5_000_000)]).unwrap().is_empty());
    assert_eq!(plan(&env, &vec![]).err(), Some(PlanError::NoVideo));
}

#[test]
fn the_frame_period_follows_the_frame_rate() {
    let events = vec![slide(1), Event::BlankMs(10), slide(2), Event::BlankMs(20)];
    for (frame_rate, period, shown) in [
        (1, 1_000_000, 0),
        (25, 40_000, 0),
        (50, 20_000, 1),
        (60, 16_666, 1),
        (100, 10_000, 2),
        (1_000_000, 1, 2),
    ] {
        let env = run_at(frame_rate);
        assert_eq!(env.frame_period(), period);
        assert_eq!(plan_video_stream(&env, &events).unwrap().len(), shown);
    }
    let env = run_at(1_000_000);
    assert!(plan_video_stream(&env, &vec![slide(1), Event::BlankMs(0)]).unwrap().is_empty());
}

#[test]
fn channels_that_do_not_fit_are_refused_one_by_one() {
    let env = run();
    let events = vec![slide(1), voice(u64::MAX), music(None, 1), Event::BlankMs(1)];
    assert_eq!(plan_video_stream(&env, &events).err(), Some(PlanError::DurationOverflow));
    assert_eq!(plan_bg_audio_stream(&env, &events).err(), Some(PlanError::DurationOverflow));
    assert_eq!(plan_fg_audio_stream(&env, &events).len(), 2);
}

#[test]
fn sounds_before_the_first_page_belong_to_no_page() {
    let env = run();
    let events = vec![voice(9_000_000), slide(1), voice(1_000_000)];
    assert_eq!(plan_video_stream(&env, &events).unwrap(), vec![format!("movie=./marp_doc.001{}1", TAIL)]);
}

#[test]
fn slides_are_counted_whether_shown_or_not() {
    let events = vec![
        slide(1),
        voice(1_000_000),
        Event::CPageMarker { color: "red".to_string() },
        slide(2),
        Event::IPageMarker { path: "/a.png".to_string() },
        slide(3),
        Event::BlankMs(1),
    ];
    assert_eq!(count_slides(&events), 3);
    assert_eq!(count_slides(&vec![voice(1)]), 0);
    assert_eq!(count_slides(&vec![]), 0);
}

#[test]
fn plan_gives_the_three_channels() {
    let env = run();
    let events = vec![slide(1), voice(1_000_000), music(None, 100_000), Event::BlankMs(500)];
    let channels = plan(&env, &events).unwrap();
    assert_eq!(channels.videos, plan_video_stream(&env, &events).unwrap());
    assert_eq!(channels.fg_sounds, plan_fg_audio_stream(&env, &events));
    assert_eq!(channels.bg_sounds, plan_bg_audio_stream(&env, &events).unwrap());
    assert_eq!(channels.videos, vec![format!("movie=./marp_doc.001{}1.5", TAIL)]);
}

#[test]
fn a_document_from_text_to_filter_graph() {
    let env = run();
    let text = "---\nmarp: true\nmarpVideo: true\nheadingDivider: 1\n---\n\n# Title\n\n<!--mv\nspeak: Hello\nblank: 500\n-->\n\n# Second\n\n<!--mv\nbgm: path=music.mp3,volume=50\n-->\n";
    let frontmatter = Frontmatter { marp_video: Some(true), marp: Some(true), heading_divider: 1 };
    let doc = DocEvents::parse(&env, text, &frontmatter).unwrap();
    let pages: Vec<usize> = doc
        .events
        .iter()
        .filter_map(|e| match e {
            Event::MPageMarker { marp_page_nth } => Some(*marp_page_nth),
            _ => None,
        })
        .collect();
    assert_eq!(pages, vec![1, 2]);
    assert_eq!(sound_requests(&env, &doc.events).len(), 1);
    let events = prepare(&env, &doc.events, &vec![Some(1_200_000)]).unwrap();
    let channels = plan(&env, &events).unwrap();
    let spoken =
        "/cache/voice_c21f969b5f03d33d43e04f8f136e7682/8b1a9953c4611296a827abf8c47804d7.bin";
    assert_eq!(
        channels.fg_sounds,
        vec![format!("amovie={},volume=1", spoken), "anullsrc,atrim=duration=0.5".to_string()]
    );
    assert_eq!(
        channels.bg_sounds,
        strings(&[
            "anullsrc,atrim=duration=1.7",
            "amovie=/docs/music.mp3,volume=0.5,aloop=-1:2147483647,atrim=duration=0",
        ])
    );
    assert_eq!(channels.videos, vec![format!("movie=./marp_doc.001{}1.7", TAIL)]);
    let graph = to_filter_complex(&channels);
    let expected = format!(
        "amovie={spoken},volume=1[fga0];\nanullsrc,atrim=duration=0.5[fga1];\n[fga0][fga1]concat=n=2:v=0:a=1[fga];\nmovie=./marp_doc.001{TAIL}1.7[v0];\n[v0]concat=n=1:v=1:a=0[v];\nanullsrc,atrim=duration=1.7[bga0];\namovie=/docs/music.mp3,volume=0.5,aloop=-1:2147483647,atrim=duration=0[bga1];\n[bga0][bga1]concat=n=2:v=0:a=1[bga];\n[bga][fga]amix[a];\n\n[v][a]concat=n=1:v=1:a=1"
    );
    assert_eq!(graph, expected);
}

#[test]
fn the_filter_graph_counts_the_sources_of_each_channel() {
    let doc = DocumentChannels {
        videos: strings(&["V0", "V1", "V2"]),
        fg_sounds: strings(&["F0"]),
        bg_sounds: strings(&["B0", "B1"]),
    };
    assert_eq!(
        to_filter_complex(&doc),
        "F0[fga0];\n[fga0]concat=n=1:v=0:a=1[fga];\nV0[v0];\nV1[v1];\nV2[v2];\n[v0][v1][v2]concat=n=3:v=1:a=0[v];\nB0[bga0];\nB1[bga1];\n[bga0][bga1]concat=n=2:v=0:a=1[bga];\n[bga][fga]amix[a];\n\n[v][a]concat=n=1:v=1:a=1"
    );
}

#[test]
fn the_filter_graph_of_many_sources_numbers_them_in_decimal() {
    let doc = DocumentChannels {
        videos: strings(&["V"]),
        fg_sounds: (0..11).map(|n| format!("F{}", n)).collect(),
        bg_sounds: strings(&["B"]),
    };
    let graph = to_filter_complex(&doc);
    assert!(graph.starts_with("F0[fga0];\nF1[fga1];\n"));
    assert!(graph.contains("F10[fga10];\n[fga0][fga1][fga2][fga3][fga4][fga5][fga6][fga7][fga8][fga9][fga10]concat=n=11:v=0:a=1[fga];\n"));
}

#[test]
fn channels_are_complete_when_each_has_a_source() {
    let full = DocumentChannels {
        videos: strings(&["V"]),
        fg_sounds: strings(&["F"]),
        bg_sounds: strings(&["B"]),
    };
    assert!(full.has_every_channel());
    for missing in 0..3 {
        let mut doc = full.clone();
        match missing {
            0 => doc.videos.clear(),
            1 => doc.fg_sounds.clear(),
            _ => doc.bg_sounds.clear(),
        }
        assert!(!doc.has_every_channel());
    }
    let env = run();
    let planned = plan(&env, &vec![slide(1), voice(1_000_000)]).unwrap();
    assert!(planned.has_every_channel());
    assert!(!to_filter_complex(&planned).contains("concat=n=0"));
}

#[test]
fn the_encoder_is_called_with_the_graph_and_the_output() {
    let env = run();
    let doc = DocumentChannels {
        videos: strings(&["V"]),
        fg_sounds: strings(&["F"]),
        bg_sounds: strings(&["B"]),
    };
    let graph = to_filter_complex(&doc);
    assert_eq!(
        encode_args(&env, &doc),
        strings(&[
            "-nostdin",
            "-hide_banner",
            "-y",
            "-filter_complex",
            &graph,
            "-loglevel",
            "warning",
            "-r",
            "30",
            "output.mp4",
        ])
    );
    assert_eq!(output_file(&env), "output.mp4");
}

#[test]
fn the_measuring_program_is_asked_for_the_length_alone() {
    assert_eq!(
        measure_args("/cache/a.bin"),
        strings(&[
            "-hide_banner",
            "-v",
            "error",
            "-select_streams",
            "a:0",
            "-show_entries",
            "stream=duration",
            "-of",
            "default=noprint_wrappers=1:nokey=1",
            "/cache/a.bin",
        ])
    );
}

#[test]
fn lengths_are_read_in_microseconds() {
    assert_eq!(parse_duration("1.200000\n"), Some(1_200_000));
    assert_eq!(parse_duration("  12.5 "), Some(12_500_000));
    assert_eq!(parse_duration("3"), Some(3_000_000));
    assert_eq!(parse_duration("0.000001"), Some(1));
    assert_eq!(parse_duration("N/A\n"), None);
    assert_eq!(parse_duration(""), None);
    assert_eq!(parse_duration("1.2000001"), Some(1_200_000));
    assert_eq!(parse_duration("+.5\n"), Some(500_000));
    assert_eq!(parse_duration("-1"), None);
    assert_eq!(parse_duration("1.5e1\n"), Some(15_000_000));
    assert_eq!(parse_duration("1.2\n3.4\n"), None);
}

#[test]
fn the_renderer_is_called_with_the_document() {
    assert_eq!(
        marp_args(&run()),
        strings(&["--images", "png", "--output", "marp_doc", "--html", "--theme", "plain", "/docs/deck.md"])
    );
}

#[test]
fn the_synthesiser_is_called_with_text_and_file() {
    let env = run();
    let command = tts_command(&env, "default", "Hello").unwrap();
    let file = "/cache/voice_c21f969b5f03d33d43e04f8f136e7682/8b1a9953c4611296a827abf8c47804d7.bin";
    assert_eq!(command.bin, "say");
    assert_eq!(command.out_path, file);
    assert_eq!(command.args, strings(&["Hello", file, "--fast", "-q"]));
    assert!(tts_command(&env, "alice", "Hello").is_none());
}

#[test]
fn the_end_of_a_program_is_judged() {
    assert_eq!(check_exit(true, Some(0)), Ok(()));
    assert_eq!(check_exit(true, None), Ok(()));
    assert_eq!(check_exit(false, Some(2)), Err(RunError::ExitCode(2)));
    assert_eq!(check_exit(false, None), Err(RunError::Signal));
    assert_eq!(check_output(true, Some(0), true), Ok(()));
    assert_eq!(check_output(true, Some(0), false), Err(RunError::OutputMissing));
    assert_eq!(check_output(false, Some(1), false), Err(RunError::ExitCode(1)));
    assert_eq!(check_output(false, None, true), Err(RunError::Signal));
    let mut out = strings(&["a"]);
    push_text(&mut out, "b");
    assert_eq!(out, strings(&["a", "b"]));
}

#[test]
fn a_length_that_is_planned_reads_back() {
    let env = run();
    for micros in [120_000, 1_700_000, 2_000_000, 1_234_567, 60_000_001] {
        let sources = plan_video_stream(&env, &vec![slide(1), voice(micros)]).unwrap();
        let written = sources[0].rsplit('=').next().unwrap().to_string();
        assert_eq!(parse_duration(&written), Some(micros));
    }
}

fn lengths(sources: &[String]) -> Vec<u64> {
    sources.iter().map(|s| parse_duration(s.rsplit('=').next().unwrap()).unwrap()).collect()
}

#[test]
fn background_segments_cover_the_document() {
    let env = run();
    let events = vec![
        voice(700_000),
        slide(1),
        voice(1_200_000),
        music(None, 1),
        Event::BlankMs(500),
        slide(2),
        effect(250_000, "/x.wav", 1),
        music(Some("/m.mp3"), 1),
        music(None, 2),
        voice(9),
    ];
    let background = lengths(&plan_bg_audio_stream(&env, &events).unwrap());
    assert_eq!(background, vec![1_900_000, 750_000, 0, 9]);
    assert_eq!(background.iter().sum::<u64>(), checked_total(&events).unwrap());
    let video = lengths(&plan_video_stream(&env, &events).unwrap());
    assert_eq!(video, vec![1_700_000, 250_009]);
    assert_eq!(700_000 + video.iter().sum::<u64>(), checked_total(&events).unwrap());
}

#[test]
fn one_marker_more_divides_one_segment() {
    let env = run();
    let head = vec![voice(100_000), music(None, 1), voice(200_000), slide(1), voice(300_000)];
    let tail = vec![Event::BlankMs(400), music(None, 2), voice(500_000)];
    let mut without = head.clone();
    without.extend(tail.clone());
    let mut with = head.clone();
    with.push(music(Some("/m.mp3"), 3));
    with.extend(tail.clone());
    let before = lengths(&plan_bg_audio_stream(&env, &without).unwrap());
    let after = lengths(&plan_bg_audio_stream(&env, &with).unwrap());
    assert_eq!(before, vec![100_000, 900_000, 500_000]);
    assert_eq!(after, vec![100_000, 500_000, 400_000, 500_000]);
    assert_eq!(after[1] + after[2], before[1]);
}

#[test]
fn one_page_more_divides_one_page() {
    let env = run();
    let a = vec![voice(100_000), music(None, 1), Event::BlankMs(50)];
    let b = vec![voice(40_000), effect(60_000, "/x.wav", 1)];
    let mut one = vec![slide(1)];
    one.extend(a.clone());
    one.extend(b.clone());
    let mut two = vec![slide(1)];
    two.extend(a.clone());
    two.push(slide(2));
    two.extend(b.clone());
    assert_eq!(lengths(&plan_video_stream(&env, &one).unwrap()), vec![250_000]);
    assert_eq!(lengths(&plan_video_stream(&env, &two).unwrap()), vec![150_000, 100_000]);
}
