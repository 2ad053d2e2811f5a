//! What the player knows of the track that is playing.
use crate::listing::span_view;
use crate::path::UnixPath;
use crate::time::{longest_span, TimeSpan};
use vstd::prelude::*;

verus! {

/// What the audio sink tells of itself.
#[derive(Clone, Copy)]
pub struct SinkReport {
    pub paused: bool,
    pub empty: bool,
    pub position: TimeSpan,
}

/// What is to be done with the sink.
#[derive(Clone, Copy, PartialEq, Eq, Structural, Debug)]
pub enum PauseOrder {
    Resume,
    Pause,
}

/// The track that is loaded.
pub struct Player {
    pub current: Option<UnixPath>,
    pub total: Option<TimeSpan>,
}

/// What a player holds.
pub struct PlayerView {
    pub current: Option<Seq<u8>>,
    pub total: Option<nat>,
}

/// The bytes of a path that may be missing.
pub open spec fn path_view(p: Option<UnixPath>) -> Option<Seq<u8>> {
    match p {
        Some(p) => Some(p@),
        None => None,
    }
}

impl View for Player {
    type V = PlayerView;

    open spec fn view(&self) -> PlayerView {
        PlayerView { current: path_view(self.current), total: span_view(self.total) }
    }
}

/// How much of a track is kept out of reach at its end, in nanoseconds.
pub open spec fn end_margin() -> nat {
    500_000_000
}

/// Where a seek goes: a step forward or back, never before the start, and where
/// the length is known never into the margin at the end.
pub open spec fn seek_target(position: nat, forward: bool, step: nat, total: Option<nat>) -> nat {
    let moved: nat = if forward {
        if position + step <= longest_span() {
            position + step
        } else {
            longest_span()
        }
    } else if position >= step {
        (position - step) as nat
    } else {
        0
    };
    match total {
        Some(t) => {
            let end: nat = if t >= end_margin() {
                (t - end_margin()) as nat
            } else {
                0
            };
            if moved > end {
                end
            } else {
                moved
            }
        },
        None => moved,
    }
}

/// A player with nothing loaded.
pub open spec fn idle_player() -> PlayerView {
    PlayerView { current: None, total: None }
}

impl PlayerView {
    /// A loaded track whose sink has run dry, or that has no sink.
    pub open spec fn finished(self, sink: Option<SinkReport>) -> bool {
        self.current is Some && match sink {
            Some(s) => s.empty,
            None => true,
        }
    }
}

impl Player {
    /// A player with nothing loaded.
    pub fn new() -> (r: Player)
        ensures
            r@ == idle_player(),
    {
        Player { current: None, total: None }
    }

    /// Loads a track. Its length is the one that is known, or else the one that
    /// its decoder tells.
    pub fn play(
        &mut self,
        path: UnixPath,
        known_duration: Option<TimeSpan>,
        source_duration: Option<TimeSpan>,
    )
        ensures
            final(self)@ == (PlayerView {
                current: Some(path@),
                total: if known_duration is Some {
                    span_view(known_duration)
                } else {
                    span_view(source_duration)
                },
            }),
    {
        self.current = Some(path);
        self.total = match known_duration {
            Some(d) => Some(d),
            None => source_duration,
        };
    }

    /// Unloads the track.
    pub fn stop(&mut self)
        ensures
            final(self)@ == idle_player(),
    {
        self.current = None;
        self.total = None;
    }

    /// Decides what a press of the pause key does to the sink, if there is one.
    pub fn toggle_pause(&self, sink: Option<SinkReport>) -> (r: Option<PauseOrder>)
        ensures
            r == match sink {
                Some(s) => Some(
                    if s.paused {
                        PauseOrder::Resume
                    } else {
                        PauseOrder::Pause
                    },
                ),
                None => None,
            },
    {
        match sink {
            Some(s) => {
                if s.paused {
                    Some(PauseOrder::Resume)
                } else {
                    Some(PauseOrder::Pause)
                }
            },
            None => None,
        }
    }

    /// Tells whether there is a sink that is paused.
    pub fn is_paused(&self, sink: Option<SinkReport>) -> (r: bool)
        ensures
            r == (sink matches Some(s) && s.paused),
    {
        match sink {
            Some(s) => s.paused,
            None => false,
        }
    }

    /// True when a track was loaded and its queue has drained.
    pub fn finished(&self, sink: Option<SinkReport>) -> (r: bool)
        ensures
            r == self@.finished(sink),
    {
        self.current.is_some() && match sink {
            Some(s) => s.empty,
            None => true,
        }
    }

    /// How far the sink has played.
    pub fn position(&self, sink: Option<SinkReport>) -> (r: TimeSpan)
        ensures
            r@ == match sink {
                Some(s) => s.position@,
                None => 0,
            },
    {
        match sink {
            Some(s) => s.position,
            None => TimeSpan::new(0, 0),
        }
    }

    /// Where a seek takes the sink, if there is one.
    pub fn seek_by(&self, sink: Option<SinkReport>, forward: bool, step: TimeSpan) -> (r: Option<
        TimeSpan,
    >)
        ensures
            match sink {
                Some(s) => r is Some && r->0@ == seek_target(
                    s.position@,
                    forward,
                    step@,
                    self@.total,
                ),
                None => r is None,
            },
    {
        match sink {
            Some(s) => {
                let moved = if forward {
                    s.position.saturating_add(&step)
                } else {
                    s.position.saturating_sub(&step)
                };
                match self.total {
                    Some(total) => {
                        let end = total.saturating_sub(&TimeSpan::new(0, 500_000_000));
                        if moved.longer_than(&end) {
                            Some(end)
                        } else {
                            Some(moved)
                        }
                    },
                    None => Some(moved),
                }
            },
            None => None,
        }
    }
}

/// A seek never goes into the last half second of a track of known length; a
/// track that is shorter is sought to its start.
pub proof fn law_seek_stays_before_end(position: nat, forward: bool, step: nat, total: nat)
    ensures
        total >= end_margin() ==> seek_target(position, forward, step, Some(total)) + end_margin()
            <= total,
        total < end_margin() ==> seek_target(position, forward, step, Some(total)) == 0,
{
}

/// A seek forward does not go back, and a seek back does not go forward, unless
/// the track is already in its last half second.
pub proof fn law_seek_keeps_direction(position: nat, step: nat, total: Option<nat>)
    requires
        position <= longest_span(),
        total matches Some(t) ==> position + end_margin() <= t,
    ensures
        seek_target(position, true, step, total) >= position,
        seek_target(position, false, step, total) <= position,
{
}

/// Where neither end of the track nor the end of time is met, a seek back
/// undoes a seek forward.
pub proof fn law_seek_back_undoes_forward(position: nat, step: nat, total: Option<nat>)
    requires
        position + step <= longest_span(),
        total matches Some(t) ==> position + step + end_margin() <= t,
    ensures
        seek_target(seek_target(position, true, step, total), false, step, total) == position,
{
}

/// The place to which a step leads on a track whose length is not known: so far
/// forward, at most to the longest span that there is, or so far back, at most
/// to the start.
pub open spec fn is_step_from(target: int, position: int, forward: bool, step: int) -> bool {
    if forward {
        ||| target == position + step && target <= 18_446_744_073_709_551_615_999_999_999
        ||| target == 18_446_744_073_709_551_615_999_999_999 && target < position + step
    } else {
        ||| target + step == position
        ||| target == 0 && position < step
    }
}

/// A target that lies half a second before the end of a track of that length, or
/// at the start of a shorter one.
pub open spec fn is_last_target(target: int, total: int) -> bool {
    if total >= 500_000_000 {
        target + 500_000_000 == total
    } else {
        target == 0
    }
}

/// A place to which a seek may lead: where the step leads, unless that is beyond
/// the last place that is in reach; then to that place.
pub open spec fn is_seek_target(
    target: int,
    position: int,
    forward: bool,
    step: int,
    total: Option<nat>,
) -> bool {
    match total {
        None => is_step_from(target, position, forward, step),
        Some(t) => exists|far: int, last: int|
            #![trigger is_step_from(far, position, forward, step), is_last_target(last, t as int)]
            is_step_from(far, position, forward, step) && is_last_target(last, t as int) && (target
                == far || target == last) && target <= far && target <= last,
    }
}

/// A seek leads where the step leads, as far as the track reaches: where the
/// length is known, to the nearer one of that place and the last one in reach.
pub proof fn law_seek_follows_step(position: nat, forward: bool, step: nat, total: Option<nat>)
    ensures
        is_seek_target(
            seek_target(position, forward, step, total) as int,
            position as int,
            forward,
            step as int,
            total,
        ),
{
    let far = seek_target(position, forward, step, None) as int;
    assert(is_step_from(far, position as int, forward, step as int));
    if let Some(t) = total {
        let last: int = if t >= 500_000_000 {
            t - 500_000_000
        } else {
            0
        };
        assert(is_last_target(last, t as int));
    }
}

/// A seek back by at least the position leads to the start, whether the length
/// is known or not. A shorter one leads back by the step, or from the end of the
/// track to the last place in reach.
pub proof fn law_seek_back(position: nat, step: nat, total: Option<nat>)
    ensures
        position <= step ==> seek_target(position, false, step, total) == 0,
        position >= step && (total matches Some(t) ==> position - step + 500_000_000 <= t)
            ==> seek_target(position, false, step, total) + step == position,
        position >= step && (total matches Some(t) && t >= 500_000_000 && position - step
            + 500_000_000 > t) ==> seek_target(position, false, step, total) + 500_000_000
            == total->0,
{
}

/// A seek forward leads on by the step, or where that is too far to the last
/// place in reach.
pub proof fn law_seek_forward(position: nat, step: nat, total: Option<nat>)
    requires
        position + step <= 18_446_744_073_709_551_615_999_999_999,
    ensures
        (total matches Some(t) ==> position + step + 500_000_000 <= t) ==> seek_target(
            position,
            true,
            step,
            total,
        ) == position + step,
        (total matches Some(t) && t >= 500_000_000 && position + step + 500_000_000 > t)
            ==> seek_target(position, true, step, total) + 500_000_000 == total->0,
{
}

/// A known length only limits a seek: it leads as far as it would without one,
/// or less far to the last place in reach.
pub proof fn law_length_only_limits_seek(position: nat, forward: bool, step: nat, total: nat)
    ensures
        ({
            let free = seek_target(position, forward, step, None) as int;
            let held = seek_target(position, forward, step, Some(total)) as int;
            held == free || (held < free && is_last_target(held, total as int))
        }),
{
}

/// A longer step never leads less far.
pub proof fn law_longer_steps_lead_further(position: nat, a: nat, b: nat, total: Option<nat>)
    requires
        a <= b,
    ensures
        seek_target(position, true, a, total) <= seek_target(position, true, b, total),
        seek_target(position, false, b, total) <= seek_target(position, false, a, total),
{
}

/// A track has ended exactly where one is loaded and there is no sink that still
/// has something to play. An idle player has nothing loaded, and no length.
pub proof fn law_finished(player: PlayerView, sink: Option<SinkReport>)
    ensures
        player.current is None ==> !player.finished(sink),
        player.current is Some && sink is None ==> player.finished(sink),
        player.current is Some && sink is Some ==> player.finished(sink) == sink->0.empty,
        idle_player().current is None,
        idle_player().total is None,
{
}

} // verus!
