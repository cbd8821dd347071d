//! The channel over which browsers see reports at once.

use crate::server::db::text_view;
use crate::server::errors::{refusal, AppError, ErrorView};
use crate::server::middleware::is_among;
use crate::text::views;
use vstd::prelude::*;
use vstd::string::*;

verus! {

/// Why the channel is not opened, if it is not.
pub open spec fn channel_refused(
    session: bool,
    origin: Option<Seq<char>>,
    allowed: Seq<Seq<char>>,
) -> Option<ErrorView> {
    let o = match origin {
        Some(o) => o,
        None => ""@,
    };
    if !session {
        Some(ErrorView::Unauthorized)
    } else if !allowed.contains(o) {
        Some(ErrorView::Forbidden)
    } else {
        None
    }
}

/// Whether the channel is opened: it takes a session, and a page of the server itself, since cookies
/// travel with such connections from other sites too.
pub fn upgrade(session: bool, origin: Option<&str>, allowed: &[String]) -> (r: Result<(), AppError>)
    ensures
        refusal(r) == channel_refused(session, text_view(origin), views(allowed@)),
{
    if !session {
        return Err(AppError::Unauthorized);
    }
    let o = match origin {
        Some(o) => o,
        None => "",
    };
    if !is_among(o, allowed) {
        return Err(AppError::Forbidden);
    }
    Ok(())
}

/// What happens on the channel.
#[derive(Debug, Clone, Copy, PartialEq, Eq, Structural)]
pub enum UiEvent {
    /// It is time for a sign of life.
    Tick,
    /// There is a report.
    Report,
    /// Some reports were missed.
    Lagged,
    /// There will be no more reports.
    Ended,
    /// The browser sends something.
    Incoming,
    /// The browser closes the channel, or it is lost.
    Closed,
}

/// What to do about it.
#[derive(Debug, Clone, Copy, PartialEq, Eq, Structural)]
pub enum UiAction {
    Ping,
    Forward,
    Ignore,
    Close,
}

/// What to do about what happens on the channel.
pub open spec fn ui_action(e: UiEvent) -> UiAction {
    match e {
        UiEvent::Tick => UiAction::Ping,
        UiEvent::Report => UiAction::Forward,
        UiEvent::Lagged => UiAction::Ignore,
        UiEvent::Incoming => UiAction::Ignore,
        UiEvent::Ended => UiAction::Close,
        UiEvent::Closed => UiAction::Close,
    }
}

/// What to do about what happens on the channel. What a browser sends is ignored; one that was too
/// slow goes on with the next report.
pub fn conn_loop(e: UiEvent) -> (r: UiAction)
    ensures
        r == ui_action(e),
{
    match e {
        UiEvent::Tick => UiAction::Ping,
        UiEvent::Report => UiAction::Forward,
        UiEvent::Lagged => UiAction::Ignore,
        UiEvent::Incoming => UiAction::Ignore,
        UiEvent::Ended => UiAction::Close,
        UiEvent::Closed => UiAction::Close,
    }
}

} // verus!
