//! Looking for a template in captured frames: one look, and the decisions of
//! a wait that looks again and again. Capturing a frame and sleeping between
//! two looks are the caller's business.
//!
//! Thresholds are given in millionths, as scores are. A template counts as
//! found where the score is above the threshold; a score equal to it does
//! not count.

use crate::adb_commands::AdbScreenshotError;
use crate::cv::{cv_match_template_center, expected_frame_match, MatchError, MatchResult};
use crate::score::PPM;
use image::DynamicImage;
use vstd::prelude::*;

verus! {

/// Why no frame was captured.
#[derive(Debug)]
pub enum ScreenshotError {
    /// The device gave no screenshot.
    AdbScreenshotError(AdbScreenshotError),
    /// The local display gave none; the message says why.
    XcapScreenshotError(String),
}

/// Why a template was not looked for.
#[derive(Debug)]
pub enum FindTemplateError {
    /// No frame was captured.
    ScreenshotError(ScreenshotError),
    /// The frame and the template cannot be matched.
    MatchError(MatchError),
}

/// Screenshots of a device reached through `adb`, and the size threshold at
/// which they are searched.
#[derive(Debug)]
pub struct AdbScreenshoter {
    match_size_threshold: u32,
}

impl AdbScreenshoter {
    /// The size threshold that was given.
    pub closed spec fn size_threshold(&self) -> u32 {
        self.match_size_threshold
    }

    pub fn new(match_size_threshold: u32) -> (s: Self)
        ensures
            s.size_threshold() == match_size_threshold,
    {
        Self { match_size_threshold }
    }

    pub fn get_match_size_threshold(&self) -> (t: u32)
        ensures
            t == self.size_threshold(),
    {
        self.match_size_threshold
    }
}

/// What looking for `template` in a capture comes to.
pub open spec fn expected_find(
    frame: Result<DynamicImage, ScreenshotError>,
    template: DynamicImage,
    match_size_threshold: nat,
) -> Result<MatchResult, FindTemplateError> {
    match frame {
        Err(e) => Err(FindTemplateError::ScreenshotError(e)),
        Ok(source) => match expected_frame_match(source, template, match_size_threshold) {
            Ok(found) => Ok(found),
            Err(e) => Err(FindTemplateError::MatchError(e)),
        },
    }
}

/// The match, if its score is above the threshold.
pub open spec fn existence(found: MatchResult, threshold: i32) -> Option<MatchResult> {
    if found.correlation > threshold {
        Some(found)
    } else {
        None
    }
}

/// What checking a capture for `template` comes to.
pub open spec fn expected_existence(
    frame: Result<DynamicImage, ScreenshotError>,
    template: DynamicImage,
    match_size_threshold: nat,
    threshold: i32,
) -> Result<Option<MatchResult>, FindTemplateError> {
    match expected_find(frame, template, match_size_threshold) {
        Ok(found) => Ok(existence(found, threshold)),
        Err(e) => Err(e),
    }
}

/// Looks for `template` in a capture: the best placement in the frame, or
/// the reason why there was no frame or no match.
pub fn find_template(
    frame: Result<DynamicImage, ScreenshotError>,
    template: &DynamicImage,
    match_size_threshold: u32,
) -> (r: Result<MatchResult, FindTemplateError>)
    ensures
        r == expected_find(frame, *template, match_size_threshold as nat),
        r matches Ok(found) ==> -PPM <= found.correlation <= PPM,
{
    match frame {
        Err(e) => Err(FindTemplateError::ScreenshotError(e)),
        Ok(source) => match cv_match_template_center(&source, template, match_size_threshold) {
            Ok(found) => Ok(found),
            Err(e) => Err(FindTemplateError::MatchError(e)),
        },
    }
}

/// The match, if its score is above the threshold: a score equal to the
/// threshold does not count.
pub fn template_existence(found: MatchResult, threshold: i32) -> (r: Option<MatchResult>)
    ensures
        r == existence(found, threshold),
{
    if found.correlation > threshold {
        Some(found)
    } else {
        None
    }
}

/// Checks a capture for `template` once: the best placement if its score is
/// above `threshold`, nothing if it is not, or the reason why there was no
/// frame or no match.
pub fn find_template_existence(
    frame: Result<DynamicImage, ScreenshotError>,
    template: &DynamicImage,
    match_size_threshold: u32,
    threshold: i32,
) -> (r: Result<Option<MatchResult>, FindTemplateError>)
    ensures
        r == expected_existence(frame, *template, match_size_threshold as nat, threshold),
        r matches Ok(Some(found)) ==> threshold < found.correlation <= PPM,
{
    match find_template(frame, template, match_size_threshold) {
        Ok(found) => Ok(template_existence(found, threshold)),
        Err(e) => Err(e),
    }
}

/// Where a wait stands.
#[derive(Clone, Copy, Debug, PartialEq, Eq, Structural)]
pub enum WaitState {
    /// Nothing has happened yet.
    Idle,
    /// A capture was asked for, and its check is awaited.
    Capturing,
    /// The last check found nothing, and the pause before the next is
    /// awaited.
    Sleeping,
    /// The wait is over.
    Finished,
}

/// How a wait ended.
#[derive(Debug)]
pub enum WaitOutcome {
    /// The template was found.
    Found(MatchResult),
    /// The wait was cancelled before the template was found.
    Cancelled,
    /// A capture or a match failed.
    Failed(FindTemplateError),
}

/// What happened since the last step.
#[derive(Debug)]
pub enum WaitEvent {
    /// A new round may begin: the wait has just been started or the pause is
    /// over. `cancelled` says whether the caller has given the wait up.
    Ready { cancelled: bool },
    /// The capture that was asked for has been made and checked.
    Checked(Result<Option<MatchResult>, FindTemplateError>),
}

/// What the caller does next.
#[derive(Debug)]
pub enum WaitAction {
    /// Capture a fresh frame, check it, and report `Checked`.
    Capture,
    /// Pause for the interval, then report `Ready`.
    Sleep,
    /// Stop, with this outcome.
    Finish(WaitOutcome),
}

/// The state and the action that follow an event, or nothing where the state
/// does not expect the event.
///
/// Each round begins with the question whether the wait was cancelled, and
/// only then asks for a capture. A check that found the template, or that
/// failed, ends the wait; one that found nothing leads to a pause and
/// another round.
pub open spec fn wait_transition(state: WaitState, event: WaitEvent) -> Option<
    (WaitState, WaitAction),
> {
    match (state, event) {
        (WaitState::Idle, WaitEvent::Ready { cancelled }) | (
            WaitState::Sleeping,
            WaitEvent::Ready { cancelled },
        ) => if cancelled {
            Some((WaitState::Finished, WaitAction::Finish(WaitOutcome::Cancelled)))
        } else {
            Some((WaitState::Capturing, WaitAction::Capture))
        },
        (WaitState::Capturing, WaitEvent::Checked(Ok(Some(found)))) => Some(
            (WaitState::Finished, WaitAction::Finish(WaitOutcome::Found(found))),
        ),
        (WaitState::Capturing, WaitEvent::Checked(Ok(None))) => Some(
            (WaitState::Sleeping, WaitAction::Sleep),
        ),
        (WaitState::Capturing, WaitEvent::Checked(Err(e))) => Some(
            (WaitState::Finished, WaitAction::Finish(WaitOutcome::Failed(e))),
        ),
        _ => None,
    }
}

/// One step of a wait: see [`wait_transition`].
pub fn wait_step(state: WaitState, event: WaitEvent) -> (r: Option<(WaitState, WaitAction)>)
    ensures
        r == wait_transition(state, event),
{
    match state {
        WaitState::Idle | WaitState::Sleeping => match event {
            WaitEvent::Ready { cancelled } => if cancelled {
                Some((WaitState::Finished, WaitAction::Finish(WaitOutcome::Cancelled)))
            } else {
                Some((WaitState::Capturing, WaitAction::Capture))
            },
            WaitEvent::Checked(_) => None,
        },
        WaitState::Capturing => match event {
            WaitEvent::Checked(Ok(Some(found))) => Some(
                (WaitState::Finished, WaitAction::Finish(WaitOutcome::Found(found))),
            ),
            WaitEvent::Checked(Ok(None)) => Some((WaitState::Sleeping, WaitAction::Sleep)),
            WaitEvent::Checked(Err(e)) => Some(
                (WaitState::Finished, WaitAction::Finish(WaitOutcome::Failed(e))),
            ),
            WaitEvent::Ready { .. } => None,
        },
        WaitState::Finished => None,
    }
}

/// What one round of a wait meets: whether the caller has given the wait up
/// when the round begins, and what the check of its capture comes to if the
/// capture is made.
pub struct Round {
    pub cancelled: bool,
    pub checked: Result<Option<MatchResult>, FindTemplateError>,
}

/// How a wait that stands at `state` ends when it meets `rounds`, one after
/// the other; nothing if they run out before it ends.
pub open spec fn wait_outcome(state: WaitState, rounds: Seq<Round>) -> Option<WaitOutcome>
    decreases rounds.len(),
{
    if rounds.len() == 0 {
        None
    } else {
        match wait_transition(state, WaitEvent::Ready { cancelled: rounds[0].cancelled }) {
            Some((_, WaitAction::Finish(outcome))) => Some(outcome),
            Some((capturing, WaitAction::Capture)) => match wait_transition(
                capturing,
                WaitEvent::Checked(rounds[0].checked),
            ) {
                Some((_, WaitAction::Finish(outcome))) => Some(outcome),
                Some((sleeping, WaitAction::Sleep)) => wait_outcome(sleeping, rounds.skip(1)),
                _ => None,
            },
            _ => None,
        }
    }
}

/// Whether the first `n` rounds are not cancelled and find nothing.
pub open spec fn all_miss(rounds: Seq<Round>, n: int) -> bool {
    forall|i: int|
        0 <= i < n ==> !(#[trigger] rounds[i]).cancelled && rounds[i].checked == Ok::<
            Option<MatchResult>,
            FindTemplateError,
        >(None)
}

/// A wait whose threshold is below the score of the first capture ends with
/// that capture, whatever comes after. Every score is at least minus one, so
/// a threshold below minus one is below every score, and a threshold of
/// minus one is below every score but minus one itself.
pub proof fn lemma_first_capture_suffices(found: MatchResult, threshold: i32, rounds: Seq<Round>)
    requires
        rounds.len() > 0,
        !rounds[0].cancelled,
        rounds[0].checked == Ok::<Option<MatchResult>, FindTemplateError>(
            existence(found, threshold),
        ),
        -PPM <= found.correlation,
        threshold < -PPM || (threshold == -PPM && found.correlation != -PPM),
    ensures
        wait_outcome(WaitState::Idle, rounds) == Some(WaitOutcome::Found(found)),
{
}

/// A wait that is cancelled before the template is found ends as cancelled:
/// after any number of rounds that found nothing, the round that begins once
/// the caller has given up makes no capture and ends the wait.
pub proof fn lemma_cancellation_ends_wait(state: WaitState, rounds: Seq<Round>, n: int)
    requires
        state == WaitState::Idle || state == WaitState::Sleeping,
        0 <= n < rounds.len(),
        all_miss(rounds, n),
        rounds[n].cancelled,
    ensures
        wait_outcome(state, rounds) == Some(WaitOutcome::Cancelled),
    decreases n,
{
    if n > 0 {
        assert(!rounds[0].cancelled);
        let rest = rounds.skip(1);
        assert forall|i: int| 0 <= i < n - 1 implies !(#[trigger] rest[i]).cancelled
            && rest[i].checked == Ok::<Option<MatchResult>, FindTemplateError>(None) by {
            assert(rest[i] == rounds[i + 1]);
        }
        assert(rest[n - 1] == rounds[n]);
        lemma_cancellation_ends_wait(WaitState::Sleeping, rest, n - 1);
    }
}

/// A wait ends with the first round that is cancelled, finds the template or
/// fails: as long as rounds find nothing it goes on, and where they run out
/// it has not ended.
pub proof fn lemma_wait_goes_on(state: WaitState, rounds: Seq<Round>)
    requires
        state == WaitState::Idle || state == WaitState::Sleeping,
        all_miss(rounds, rounds.len() as int),
    ensures
        wait_outcome(state, rounds) is None,
    decreases rounds.len(),
{
    if rounds.len() > 0 {
        assert(!rounds[0].cancelled);
        let rest = rounds.skip(1);
        assert forall|i: int| 0 <= i < rest.len() implies !(#[trigger] rest[i]).cancelled
            && rest[i].checked == Ok::<Option<MatchResult>, FindTemplateError>(None) by {
            assert(rest[i] == rounds[i + 1]);
        }
        lemma_wait_goes_on(WaitState::Sleeping, rest);
    }
}

/// Nothing follows the end of a wait.
pub proof fn lemma_finished_is_final(event: WaitEvent)
    ensures
        wait_transition(WaitState::Finished, event) is None,
{
}

} // verus!
