//! Cutting a sequence of frames into rounds, and the role of each round.

use vstd::prelude::*;

use crate::frame::{features_of, is_blank, FeatureSet, Image};

verus! {

/// The role the player had in a round.
#[derive(Clone, Copy, Debug, PartialEq, Eq, Structural)]
pub enum Role {
    Impostor,
    Crewmate,
}

/// A round: the frames `[start, end)` and the role seen in them.
#[derive(Clone, Copy, Debug, PartialEq, Eq, Structural)]
pub struct GameSegment {
    pub start: usize,
    pub end: usize,
    pub role: Role,
}

/// Where the scan stands: between rounds, or inside one that began at `start`,
/// with its two counters.
#[derive(Clone, Copy, Debug, PartialEq, Eq, Structural)]
pub enum Tracker {
    Idle,
    InGame { start: usize, impostor_objectives: usize, ingame_frames: usize },
}

/// The role of a round: Impostor when the impostor objective was seen in
/// strictly more than three fifths of the counted frames. With no counted
/// frame the ratio is undefined and the round is Crewmate.
pub open spec fn role_of(impostor_objectives: int, ingame_frames: int) -> Role {
    if ingame_frames > 0 && 5 * impostor_objectives > 3 * ingame_frames {
        Role::Impostor
    } else {
        Role::Crewmate
    }
}

/// The frame counts toward the impostor objective of a round.
pub open spec fn counts_objective(f: FeatureSet) -> bool {
    f.impostor_objective && !f.alert
}

/// The frame counts as a plain in-game frame of a round.
pub open spec fn counts_ingame(f: FeatureSet) -> bool {
    f.spec_is_game() && !f.open_map && !f.council && !f.alert
}

/// The state after frame `f` at index `i`, and the round it closes, if any.
/// A round opens on a game frame while idle, and closes (ending before `i`)
/// on an end screen or the settings; then, while a round is open, the frame
/// adds to its counters.
pub open spec fn step(s: Tracker, f: FeatureSet, i: int) -> (Tracker, Seq<GameSegment>) {
    let (s1, out) = if s is Idle && f.spec_is_game() {
        (Tracker::InGame { start: i as usize, impostor_objectives: 0, ingame_frames: 1 }, seq![])
    } else if f.spec_ends_round() && s is InGame {
        (
            Tracker::Idle,
            seq![
                GameSegment {
                    start: s->start,
                    end: i as usize,
                    role: role_of(s->impostor_objectives as int, s->ingame_frames as int),
                },
            ],
        )
    } else {
        (s, seq![])
    };
    let s2 = match s1 {
        Tracker::Idle => Tracker::Idle,
        Tracker::InGame { start, impostor_objectives, ingame_frames } => Tracker::InGame {
            start,
            impostor_objectives: (impostor_objectives + if counts_objective(f) {
                1int
            } else {
                0int
            }) as usize,
            ingame_frames: (ingame_frames + if counts_ingame(f) {
                1int
            } else {
                0int
            }) as usize,
        },
    };
    (s2, out)
}

/// The state after the frames, from left to right, and the rounds closed on
/// the way.
pub open spec fn scan(frames: Seq<FeatureSet>) -> (Tracker, Seq<GameSegment>)
    decreases frames.len(),
{
    if frames.len() == 0 {
        (Tracker::Idle, seq![])
    } else {
        let (s, out) = scan(frames.drop_last());
        let (s2, more) = step(s, frames.last(), frames.len() - 1);
        (s2, out + more)
    }
}

/// The rounds found in the frames: those that the scan closed, then the one
/// still open at the end, which runs to the last frame.
pub open spec fn detect(frames: Seq<FeatureSet>) -> Seq<GameSegment> {
    let (s, out) = scan(frames);
    match s {
        Tracker::Idle => out,
        Tracker::InGame { start, impostor_objectives, ingame_frames } => out.push(
            GameSegment {
                start,
                end: frames.len() as usize,
                role: role_of(impostor_objectives as int, ingame_frames as int),
            },
        ),
    }
}

/// The counters of an open round stay below the number of frames scanned.
pub open spec fn tracker_bounded(s: Tracker, i: int) -> bool {
    match s {
        Tracker::Idle => true,
        Tracker::InGame { start, impostor_objectives, ingame_frames } => start < i
            && impostor_objectives <= i && ingame_frames <= i + 1,
    }
}

/// The role for the counters of a round, from the exact ratio test.
pub fn role_for(impostor_objectives: usize, ingame_frames: usize) -> (r: Role)
    ensures
        r == role_of(impostor_objectives as int, ingame_frames as int),
{
    if ingame_frames > 0 && impostor_objectives as u128 * 5 > ingame_frames as u128 * 3 {
        Role::Impostor
    } else {
        Role::Crewmate
    }
}

/// Cuts the frames into rounds and gives each its role; also returns the
/// number of frames.
pub fn detect_games(frames: &Vec<FeatureSet>) -> (r: (Vec<GameSegment>, usize))
    requires
        frames@.len() < usize::MAX,
    ensures
        r.0@ == detect(frames@),
        r.1 == frames@.len(),
{
    let mut games: Vec<GameSegment> = Vec::new();
    let mut state = Tracker::Idle;
    let mut i: usize = 0;
    while i < frames.len()
        invariant
            frames@.len() < usize::MAX,
            i <= frames@.len(),
            (state, games@) == scan(frames@.take(i as int)),
            tracker_bounded(state, i as int),
        decreases frames@.len() - i,
    {
        let f = frames[i];
        let ghost before = state;
        let ghost closed = games@;
        if f.is_game() && matches!(state, Tracker::Idle) {
            state = Tracker::InGame { start: i, impostor_objectives: 0, ingame_frames: 1 };
        } else if f.ends_round() {
            if let Tracker::InGame { start, impostor_objectives, ingame_frames } = state {
                games.push(
                    GameSegment { start, end: i, role: role_for(impostor_objectives, ingame_frames) },
                );
                state = Tracker::Idle;
            }
        }
        if let Tracker::InGame { start, impostor_objectives, ingame_frames } = state {
            let mut objectives = impostor_objectives;
            let mut ingame = ingame_frames;
            if f.impostor_objective && !f.alert {
                objectives = objectives + 1;
            }
            if f.is_game() && !f.open_map && !f.council && !f.alert {
                ingame = ingame + 1;
            }
            state = Tracker::InGame { start, impostor_objectives: objectives, ingame_frames: ingame };
        }
        proof {
            let t = frames@.take(i + 1);
            assert(t.drop_last() =~= frames@.take(i as int));
            assert(t.last() == f);
            let (s2, more) = step(before, f, i as int);
            assert(state == s2);
            assert(games@ =~= closed + more);
        }
        i = i + 1;
    }
    assert(frames@.take(frames@.len() as int) =~= frames@);
    if let Tracker::InGame { start, impostor_objectives, ingame_frames } = state {
        games.push(
            GameSegment {
                start,
                end: frames.len(),
                role: role_for(impostor_objectives, ingame_frames),
            },
        );
    }
    (games, frames.len())
}

/// Drops the run of all-black frames at the end of the sequence: the blank
/// tiles that pad the storyboard past the end of the video. Trimming stops at
/// the last frame with a pixel that is not black.
pub fn trim_blank_tail(images: &mut Vec<Image>)
    requires
        forall|j: int| 0 <= j < old(images)@.len() ==> (#[trigger] old(images)@[j]).wf(),
    ensures
        final(images)@.len() <= old(images)@.len(),
        final(images)@ == old(images)@.take(final(images)@.len() as int),
        final(images)@.len() == 0 || !is_blank(
            old(images)@[final(images)@.len() - 1].pixels(),
        ),
        forall|j: int|
            final(images)@.len() <= j < old(images)@.len() ==> is_blank(
                #[trigger] old(images)@[j].pixels(),
            ),
{
    let ghost initial = images@;
    while images.len() > 0 && images[images.len() - 1].is_blank()
        invariant
            images@.len() <= initial.len(),
            images@ == initial.take(images@.len() as int),
            forall|j: int| 0 <= j < initial.len() ==> (#[trigger] initial[j]).wf(),
            forall|j: int|
                images@.len() <= j < initial.len() ==> is_blank(#[trigger] initial[j].pixels()),
        decreases images@.len(),
    {
        images.pop();
        assert(images@ =~= initial.take(images@.len() as int));
    }
}

/// The features of the first `n` images.
pub open spec fn features_prefix(images: Seq<Image>, n: int) -> Seq<FeatureSet> {
    Seq::new(n as nat, |j: int| features_of(images[j]))
}

/// The whole analysis of a storyboard's frames: drops the blank frames at the
/// end, then cuts the rest into rounds. Returns the rounds and the number of
/// frames kept.
pub fn find_games(images: Vec<Image>) -> (r: (Vec<GameSegment>, usize))
    requires
        forall|j: int| 0 <= j < images@.len() ==> (#[trigger] images@[j]).wf(),
        images@.len() < usize::MAX,
    ensures
        r.1 <= images@.len(),
        r.1 == 0 || !is_blank(images@[r.1 - 1].pixels()),
        forall|j: int| r.1 <= j < images@.len() ==> is_blank(#[trigger] images@[j].pixels()),
        r.0@ == detect(features_prefix(images@, r.1 as int)),
{
    let ghost initial = images@;
    let mut images = images;
    trim_blank_tail(&mut images);
    let mut frames: Vec<FeatureSet> = Vec::new();
    let mut i: usize = 0;
    while i < images.len()
        invariant
            i <= images@.len(),
            images@.len() <= initial.len(),
            initial.len() < usize::MAX,
            images@ == initial.take(images@.len() as int),
            frames@ == features_prefix(initial, i as int),
        decreases images@.len() - i,
    {
        let f = images[i].features();
        frames.push(f);
        i = i + 1;
        assert(frames@ =~= features_prefix(initial, i as int));
    }
    detect_games(&frames)
}

/// A round whose impostor objective was seen in exactly three fifths of its
/// counted frames is a Crewmate round: the bound is strict. One more such
/// frame makes it an Impostor round.
pub proof fn lemma_three_fifths_is_crewmate(n: nat)
    requires
        n > 0,
    ensures
        role_of(3 * n as int, 5 * n as int) == Role::Crewmate,
        role_of(3 * n as int + 1, 5 * n as int) == Role::Impostor,
{
}

/// A round with no counted frame is a Crewmate round, whatever was seen.
pub proof fn lemma_no_counted_frame_is_crewmate(impostor_objectives: nat)
    ensures
        role_of(impostor_objectives as int, 0) == Role::Crewmate,
{
}

/// When the frames run out inside a round, that round is still reported,
/// once, as the last one, and it ends at the number of frames.
pub proof fn lemma_open_round_closes_at_end(frames: Seq<FeatureSet>)
    requires
        scan(frames).0 is InGame,
    ensures
        detect(frames).len() == scan(frames).1.len() + 1,
        detect(frames).last().end == frames.len() as usize,
        detect(frames).last().start == scan(frames).0->start,
        detect(frames).drop_last() == scan(frames).1,
{
    assert(detect(frames).drop_last() =~= scan(frames).1);
}

/// Whether a frame is a game frame depends on the map button, the
/// discussion banner, the alert and the progress bar alone.
pub proof fn lemma_is_game_reads_four_flags(a: FeatureSet, b: FeatureSet)
    requires
        a.bright_map == b.bright_map,
        a.council == b.council,
        a.alert == b.alert,
        a.progress_bar == b.progress_bar,
    ensures
        a.spec_is_game() == b.spec_is_game(),
        a.spec_is_game() == (a.bright_map || a.council || a.alert || a.progress_bar),
{
}

} // verus!
