//! From the events of a document to events with measured sounds: which sounds
//! have to be made and measured, and what the events are once they have been.

use vstd::prelude::*;
use crate::environment::Environment;
use crate::event::{Event, EventView, FULL_VOLUME};
use crate::event_parser::{RawEvent, RawEventView};

verus! {

/// A sound that can be played.
#[derive(Debug, Clone)]
pub struct Sound {
    /// In microseconds.
    pub duration: u64,
    pub path: String,
    /// In thousandths of a percent.
    pub volume: u64,
}

/// A sound as contracts see it.
pub struct SoundView {
    pub duration: u64,
    pub path: Seq<char>,
    pub volume: u64,
}

impl DeepView for Sound {
    type V = SoundView;

    open spec fn deep_view(&self) -> SoundView {
        SoundView { duration: self.duration, path: self.path@, volume: self.volume }
    }
}

/// An event whose sound has been measured.
pub type TimedEvent = Event<Sound, Sound>;

/// A measured event as contracts see it.
pub type TimedEventView = EventView<SoundView, SoundView>;

/// A sound whose length has to be found.
#[derive(Debug, Clone)]
pub enum SoundRequest {
    /// Speak `text` with the voice `profile` into the file at `path`, unless
    /// it is there already, and measure that file.
    Voice { profile: String, text: String, path: String },
    /// Measure the file at `path`.
    SoundEffect { path: String },
}

/// A request as contracts see it.
pub enum SoundRequestView {
    Voice { profile: Seq<char>, text: Seq<char>, path: Seq<char> },
    SoundEffect { path: Seq<char> },
}

impl DeepView for SoundRequest {
    type V = SoundRequestView;

    open spec fn deep_view(&self) -> SoundRequestView {
        match self {
            SoundRequest::Voice { profile, text, path } => SoundRequestView::Voice {
                profile: profile@,
                text: text@,
                path: path@,
            },
            SoundRequest::SoundEffect { path } => SoundRequestView::SoundEffect { path: path@ },
        }
    }
}

/// Why the events of a document got no sounds.
#[derive(Debug, Clone, Copy, PartialEq, Eq, Structural)]
pub enum PrepareError {
    /// There is not one outcome for each request.
    OutcomeCount,
    /// The request of this index, counted from zero, is the first that failed.
    Failed { request: usize },
}

/// Whether an event needs a sound.
pub open spec fn needs_sound(event: RawEventView) -> bool {
    event is Voice || event is SoundEffect
}

/// The number of events that need a sound.
pub open spec fn request_count(events: Seq<RawEventView>) -> nat
    decreases events.len(),
{
    if events.len() == 0 {
        0
    } else if needs_sound(events.last()) {
        request_count(events.drop_last()) + 1
    } else {
        request_count(events.drop_last())
    }
}

/// The sound that has to be found for an event, if it needs one: a
/// narration is spoken into its file in the cache and measured there, a sound
/// effect is measured where it is.
pub open spec fn request_of(env: Environment, event: RawEventView) -> Option<SoundRequestView> {
    match event {
        EventView::Voice(voice) => Some(
            SoundRequestView::Voice {
                profile: voice.profile,
                text: voice.text,
                path: env.voice_cache_text(voice.profile, voice.text),
            },
        ),
        EventView::SoundEffect(sound) => Some(SoundRequestView::SoundEffect { path: sound.path }),
        _ => None,
    }
}

/// What gives each event its request.
pub open spec fn request_in(env: Environment) -> spec_fn(RawEventView) -> Option<SoundRequestView> {
    |event: RawEventView| request_of(env, event)
}

/// The sounds that have to be found for `events`: one for each narration and
/// each sound effect, in the order of the events.
pub open spec fn requests(env: Environment, events: Seq<RawEventView>) -> Seq<SoundRequestView> {
    events.filter_map(request_in(env))
}

/// The length that the outcome of index `k` gives; zero where it failed.
pub open spec fn length_at(outcomes: Seq<Option<u64>>, k: int) -> u64 {
    match outcomes[k] {
        Some(duration) => duration,
        None => 0,
    }
}

/// An event with its sound, where `k` requests came before it.
pub open spec fn resolve_event(
    env: Environment,
    event: RawEventView,
    outcomes: Seq<Option<u64>>,
    k: int,
) -> TimedEventView {
    match event {
        EventView::Voice(voice) => EventView::Voice(
            SoundView {
                duration: length_at(outcomes, k),
                path: env.voice_cache_text(voice.profile, voice.text),
                volume: FULL_VOLUME,
            },
        ),
        EventView::SoundEffect(sound) => EventView::SoundEffect(
            SoundView { duration: length_at(outcomes, k), path: sound.path, volume: sound.volume },
        ),
        EventView::BlankMs(millis) => EventView::BlankMs(millis),
        EventView::MVBGMMarker { path, volume } => EventView::MVBGMMarker { path, volume },
        EventView::IPageMarker { path } => EventView::IPageMarker { path },
        EventView::CPageMarker { color } => EventView::CPageMarker { color },
        EventView::MPageMarker { marp_page_nth } => EventView::MPageMarker { marp_page_nth },
    }
}

/// The events with their sounds: each narration and each sound effect gets
/// the length that its request came to, by its place among the requests; a
/// narration plays the file that was spoken, at full volume; any other event
/// stays as it is.
pub open spec fn resolved(
    env: Environment,
    events: Seq<RawEventView>,
    outcomes: Seq<Option<u64>>,
) -> Seq<TimedEventView>
    decreases events.len(),
{
    if events.len() == 0 {
        Seq::empty()
    } else {
        resolved(env, events.drop_last(), outcomes).push(
            resolve_event(
                env,
                events.last(),
                outcomes,
                request_count(events.drop_last()) as int,
            ),
        )
    }
}

/// The index of the first outcome that failed, or the number of outcomes.
pub open spec fn first_failure(outcomes: Seq<Option<u64>>) -> int
    decreases outcomes.len(),
{
    if outcomes.len() == 0 || outcomes[0] is None {
        0
    } else {
        1 + first_failure(outcomes.skip(1))
    }
}

/// `first_failure` gives an index within the number of outcomes; no outcome
/// before it failed, and the outcome at it did.
pub proof fn lemma_first_failure(outcomes: Seq<Option<u64>>)
    ensures
        0 <= first_failure(outcomes) <= outcomes.len(),
        forall|k: int| 0 <= k < first_failure(outcomes) ==> outcomes[k] is Some,
        first_failure(outcomes) < outcomes.len() ==> outcomes[first_failure(outcomes)] is None,
    decreases outcomes.len(),
{
    if outcomes.len() > 0 && outcomes[0] is Some {
        lemma_first_failure(outcomes.skip(1));
        assert forall|k: int| 0 <= k < first_failure(outcomes) implies outcomes[k] is Some by {
            if k > 0 {
                assert(outcomes.skip(1)[k - 1] == outcomes[k]);
            }
        }
    }
}

/// No more events need a sound than there are events.
pub proof fn lemma_request_count_bound(events: Seq<RawEventView>)
    ensures
        request_count(events) <= events.len(),
    decreases events.len(),
{
    if events.len() > 0 {
        lemma_request_count_bound(events.drop_last());
    }
}

/// There is one request for each event that needs a sound.
pub proof fn lemma_requests_len(env: Environment, events: Seq<RawEventView>)
    ensures
        requests(env, events).len() == request_count(events),
    decreases events.len(),
{
    if events.len() > 0 {
        lemma_requests_len(env, events.drop_last());
    }
}

/// The sounds that have to be found for `events`.
pub fn sound_requests(env: &Environment, events: &Vec<RawEvent>) -> (r: Vec<SoundRequest>)
    ensures
        r.deep_view() == requests(*env, events.deep_view()),
        r.len() == request_count(events.deep_view()),
{
    let mut out: Vec<SoundRequest> = Vec::new();
    let ghost all = events.deep_view();
    let mut i: usize = 0;
    while i < events.len()
        invariant
            i <= events.len(),
            all == events.deep_view(),
            out.deep_view() == requests(*env, all.take(i as int)),
            out.len() == request_count(all.take(i as int)),
        decreases events.len() - i,
    {
        proof {
            assert(all.take(i + 1).drop_last() == all.take(i as int));
            lemma_request_count_bound(all.take(i as int));
            all.lemma_filter_map_take_succ(request_in(*env), i as int);
        }
        match &events[i] {
            Event::Voice(voice) => {
                let path = env.voice_cache(voice.profile.as_str(), voice.text.as_str());
                let request = SoundRequest::Voice {
                    profile: voice.profile.clone(),
                    text: voice.text.clone(),
                    path,
                };
                out.push(request);
            },
            Event::SoundEffect(sound) => {
                out.push(SoundRequest::SoundEffect { path: sound.path.clone() });
            },
            _ => {},
        }
        i += 1;
    }
    assert(all.take(events.len() as int) == all);
    out
}

/// The number of events that need a sound.
fn count_requests(events: &Vec<RawEvent>) -> (r: usize)
    ensures
        r == request_count(events.deep_view()),
{
    let ghost all = events.deep_view();
    let mut count: usize = 0;
    let mut i: usize = 0;
    while i < events.len()
        invariant
            i <= events.len(),
            all == events.deep_view(),
            count == request_count(all.take(i as int)),
            count <= i,
        decreases events.len() - i,
    {
        proof {
            assert(all.take(i + 1).drop_last() == all.take(i as int));
        }
        match &events[i] {
            Event::Voice(_) | Event::SoundEffect(_) => {
                count += 1;
            },
            _ => {},
        }
        i += 1;
    }
    assert(all.take(events.len() as int) == all);
    count
}

/// The index of the first outcome that failed, or the number of outcomes.
fn find_failure(outcomes: &Vec<Option<u64>>) -> (r: usize)
    ensures
        r == first_failure(outcomes@),
        r <= outcomes.len(),
{
    let mut i: usize = 0;
    assert(outcomes@.skip(0) == outcomes@);
    while i < outcomes.len() && outcomes[i].is_some()
        invariant
            i <= outcomes.len(),
            first_failure(outcomes@) == i + first_failure(outcomes@.skip(i as int)),
        decreases outcomes.len() - i,
    {
        assert(outcomes@.skip(i as int).skip(1) == outcomes@.skip(i + 1));
        i += 1;
    }
    i
}

/// The length that the outcome of index `k` gives.
fn length_of(outcomes: &Vec<Option<u64>>, k: usize) -> (r: u64)
    requires
        k < outcomes.len(),
    ensures
        r == length_at(outcomes@, k as int),
{
    match outcomes[k] {
        Some(duration) => duration,
        None => 0,
    }
}

/// The events of a document with their sounds. `outcomes` holds, for each
/// request of `sound_requests` and in that order, the length of its sound in
/// microseconds, or `None` where the sound could not be made or measured.
/// Without one outcome for each request nothing is resolved; with a failure
/// among them the first one is reported.
pub fn prepare(
    env: &Environment,
    events: &Vec<RawEvent>,
    outcomes: &Vec<Option<u64>>,
) -> (r: Result<Vec<TimedEvent>, PrepareError>)
    ensures
        match r {
            Ok(sounds) => {
                &&& outcomes.len() == request_count(events.deep_view())
                &&& forall|k: int| 0 <= k < outcomes.len() ==> outcomes@[k] is Some
                &&& sounds.deep_view() == resolved(*env, events.deep_view(), outcomes@)
            },
            Err(PrepareError::OutcomeCount) => outcomes.len() != request_count(events.deep_view()),
            Err(PrepareError::Failed { request }) => {
                &&& outcomes.len() == request_count(events.deep_view())
                &&& request < outcomes.len()
                &&& outcomes@[request as int] is None
                &&& forall|k: int| 0 <= k < request ==> outcomes@[k] is Some
            },
        },
{
    proof {
        lemma_first_failure(outcomes@);
    }
    if count_requests(events) != outcomes.len() {
        return Err(PrepareError::OutcomeCount);
    }
    let failed = find_failure(outcomes);
    if failed < outcomes.len() {
        return Err(PrepareError::Failed { request: failed });
    }
    let mut out: Vec<TimedEvent> = Vec::new();
    let ghost all = events.deep_view();
    let mut i: usize = 0;
    let mut k: usize = 0;
    while i < events.len()
        invariant
            i <= events.len(),
            all == events.deep_view(),
            outcomes.len() == request_count(all),
            k == request_count(all.take(i as int)),
            out.deep_view() == resolved(*env, all.take(i as int), outcomes@),
        decreases events.len() - i,
    {
        proof {
            assert(all.take(i + 1).drop_last() == all.take(i as int));
            lemma_request_count_prefix(all, i + 1);
        }
        let event = match &events[i] {
            Event::Voice(voice) => {
                let duration = length_of(outcomes, k);
                let path = env.voice_cache(voice.profile.as_str(), voice.text.as_str());
                k += 1;
                Event::Voice(Sound { duration, path, volume: FULL_VOLUME })
            },
            Event::SoundEffect(sound) => {
                let duration = length_of(outcomes, k);
                k += 1;
                Event::SoundEffect(
                    Sound { duration, path: sound.path.clone(), volume: sound.volume },
                )
            },
            Event::BlankMs(millis) => Event::BlankMs(*millis),
            Event::MVBGMMarker { path, volume } => Event::MVBGMMarker {
                path: match path {
                    Some(file) => Some(file.clone()),
                    None => None,
                },
                volume: *volume,
            },
            Event::IPageMarker { path } => Event::IPageMarker { path: path.clone() },
            Event::CPageMarker { color } => Event::CPageMarker { color: color.clone() },
            Event::MPageMarker { marp_page_nth } => Event::MPageMarker {
                marp_page_nth: *marp_page_nth,
            },
        };
        out.push(event);
        i += 1;
    }
    assert(all.take(events.len() as int) == all);
    Ok(out)
}

/// A beginning of a run of events needs no more sounds than the run.
pub proof fn lemma_request_count_prefix(events: Seq<RawEventView>, k: int)
    requires
        0 <= k <= events.len(),
    ensures
        request_count(events.take(k)) <= request_count(events),
    decreases events.len(),
{
    if k == events.len() {
        assert(events.take(k) == events);
    } else {
        assert(events.drop_last().take(k) == events.take(k));
        lemma_request_count_prefix(events.drop_last(), k);
    }
}

/// Resolving keeps the events in their places: there are as many as before,
/// pages are pages, background markers are background markers, and each
/// narration and sound effect has become a sound.
pub proof fn lemma_resolved_keeps_kinds(
    env: Environment,
    events: Seq<RawEventView>,
    outcomes: Seq<Option<u64>>,
)
    ensures
        resolved(env, events, outcomes).len() == events.len(),
        forall|i: int|
            0 <= i < events.len() ==> {
                let before = #[trigger] events[i];
                let after = resolved(env, events, outcomes)[i];
                &&& after.is_page() == before.is_page()
                &&& after.is_bgm() == before.is_bgm()
                &&& after.is_foreground() == before.is_foreground()
            },
    decreases events.len(),
{
    if events.len() > 0 {
        lemma_resolved_keeps_kinds(env, events.drop_last(), outcomes);
        assert forall|i: int| 0 <= i < events.len() implies {
            let before = #[trigger] events[i];
            let after = resolved(env, events, outcomes)[i];
            &&& after.is_page() == before.is_page()
            &&& after.is_bgm() == before.is_bgm()
            &&& after.is_foreground() == before.is_foreground()
        } by {
            if i < events.len() - 1 {
                assert(events.drop_last()[i] == events[i]);
            }
        }
    }
}

} // verus!
