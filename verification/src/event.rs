//! The events of a document's timeline.

use vstd::prelude::*;

verus! {

/// The volume that leaves a sound as it is: one hundred percent, in
/// thousandths of a percent.
pub const FULL_VOLUME: u64 = 100_000;

/// One step of a document's timeline. `Voice` is what a narration holds and
/// `FgSound` what a sound effect holds: what was written, as long as the
/// sounds are not resolved, and the measured sound after that.
#[derive(Debug, Clone)]
pub enum Event<Voice, FgSound> {
    Voice(Voice),
    SoundEffect(FgSound),
    /// Silence, in milliseconds.
    BlankMs(usize),
    /// From here on the background plays the file at `path`, or nothing; the
    /// volume is in thousandths of a percent.
    MVBGMMarker { path: Option<String>, volume: u64 },
    /// A page that shows an image.
    IPageMarker { path: String },
    /// A page of one colour.
    CPageMarker { color: String },
    /// A page of the slide deck, counted from one.
    MPageMarker { marp_page_nth: usize },
}

/// An event as contracts see it: texts as sequences of characters.
pub enum EventView<V, S> {
    Voice(V),
    SoundEffect(S),
    BlankMs(usize),
    MVBGMMarker { path: Option<Seq<char>>, volume: u64 },
    IPageMarker { path: Seq<char> },
    CPageMarker { color: Seq<char> },
    MPageMarker { marp_page_nth: usize },
}

impl<V, S> EventView<V, S> {
    /// Whether a page starts here.
    pub open spec fn is_page(self) -> bool {
        self is IPageMarker || self is CPageMarker || self is MPageMarker
    }

    /// Whether the background changes here.
    pub open spec fn is_bgm(self) -> bool {
        self is MVBGMMarker
    }

    /// Whether the foreground plays something here: a narration, a sound
    /// effect or a silence.
    pub open spec fn is_foreground(self) -> bool {
        self is Voice || self is SoundEffect || self is BlankMs
    }
}

impl<Voice: DeepView, FgSound: DeepView> DeepView for Event<Voice, FgSound> {
    type V = EventView<Voice::V, FgSound::V>;

    open spec fn deep_view(&self) -> Self::V {
        match self {
            Event::Voice(v) => EventView::Voice(v.deep_view()),
            Event::SoundEffect(s) => EventView::SoundEffect(s.deep_view()),
            Event::BlankMs(ms) => EventView::BlankMs(*ms),
            Event::MVBGMMarker { path, volume } => EventView::MVBGMMarker {
                path: path.deep_view(),
                volume: *volume,
            },
            Event::IPageMarker { path } => EventView::IPageMarker { path: path.deep_view() },
            Event::CPageMarker { color } => EventView::CPageMarker { color: color.deep_view() },
            Event::MPageMarker { marp_page_nth } => EventView::MPageMarker {
                marp_page_nth: *marp_page_nth,
            },
        }
    }
}

impl<Voice, FgSound> Event<Voice, FgSound> {
    /// Whether a page starts here.
    pub open spec fn starts_page(&self) -> bool {
        self is IPageMarker || self is CPageMarker || self is MPageMarker
    }

    /// Whether the background changes here.
    pub open spec fn changes_bgm(&self) -> bool {
        self is MVBGMMarker
    }

    /// Whether a page starts here.
    #[verifier::when_used_as_spec(starts_page)]
    pub fn is_page(&self) -> (r: bool)
        ensures
            r == self.starts_page(),
    {
        match self {
            Event::IPageMarker { .. }
            | Event::CPageMarker { .. }
            | Event::MPageMarker { .. } => true,
            _ => false,
        }
    }

    /// Whether the background changes here.
    #[verifier::when_used_as_spec(changes_bgm)]
    pub fn is_bgm_event(&self) -> (r: bool)
        ensures
            r == self.changes_bgm(),
    {
        match self {
            Event::MVBGMMarker { .. } => true,
            _ => false,
        }
    }
}

} // verus!
