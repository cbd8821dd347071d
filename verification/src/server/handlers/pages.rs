//! The files of the user interface. Only what stands in a list is handed out.

use crate::text::same;
use vstd::prelude::*;
use vstd::string::*;

verus! {

/// The type of a file of the user interface; nothing where the name is not in the list.
pub open spec fn asset_type(name: Seq<char>) -> Option<Seq<char>> {
    if name == "app.css"@ {
        Some("text/css; charset=utf-8"@)
    } else if name == "app.js"@ || name == "chart.js"@ || name == "dashboard.js"@ || name
        == "node.js"@ || name == "settings.js"@ || name == "alerts.js"@ || name == "compare.js"@
        || name == "status.js"@ || name == "auth.js"@ {
        Some("text/javascript; charset=utf-8"@)
    } else if name == "favicon.svg"@ {
        Some("image/svg+xml"@)
    } else {
        None
    }
}

/// The type of a file of the user interface. A name that is not in the list leads to no file.
pub fn asset(name: &str) -> (r: Option<&'static str>)
    ensures
        r is Some <==> asset_type(name@) is Some,
        r matches Some(t) ==> asset_type(name@) == Some(t@),
{
    if same(name, "app.css") {
        Some("text/css; charset=utf-8")
    } else if same(name, "app.js") || same(name, "chart.js") || same(name, "dashboard.js") || same(
        name,
        "node.js",
    ) || same(name, "settings.js") || same(name, "alerts.js") || same(name, "compare.js") || same(
        name,
        "status.js",
    ) || same(name, "auth.js") {
        Some("text/javascript; charset=utf-8")
    } else if same(name, "favicon.svg") {
        Some("image/svg+xml")
    } else {
        None
    }
}

/// The pages.
#[derive(Debug, Clone, Copy, PartialEq, Eq, Structural)]
pub enum Page {
    Index,
    Node,
    Settings,
    Servers,
    Alerts,
    Compare,
    Login,
    Setup,
    Status,
}

/// What a page is answered with.
#[derive(Debug, Clone, Copy, PartialEq, Eq, Structural)]
pub enum PageAnswer {
    /// The page itself.
    Show,
    /// The page for logins instead.
    ToLogin,
    /// The first page instead.
    ToIndex,
    /// That there is no such page.
    NotFound,
}

/// What a page is answered with. `session` says whether the request comes with a session, `fresh`
/// whether there is no account yet, `public` whether the secret of the public page was brought.
pub open spec fn page_answer(page: Page, session: bool, fresh: bool, public: bool) -> PageAnswer {
    match page {
        Page::Login => if session {
            PageAnswer::ToIndex
        } else {
            PageAnswer::Show
        },
        Page::Setup => if fresh {
            PageAnswer::Show
        } else {
            PageAnswer::ToLogin
        },
        Page::Status => if public {
            PageAnswer::Show
        } else {
            PageAnswer::NotFound
        },
        _ => if session {
            PageAnswer::Show
        } else {
            PageAnswer::ToLogin
        },
    }
}

/// What a page is answered with.
pub fn guard(page: Page, session: bool, fresh: bool, public: bool) -> (r: PageAnswer)
    ensures
        r == page_answer(page, session, fresh, public),
{
    match page {
        Page::Login => if session {
            PageAnswer::ToIndex
        } else {
            PageAnswer::Show
        },
        Page::Setup => if fresh {
            PageAnswer::Show
        } else {
            PageAnswer::ToLogin
        },
        Page::Status => if public {
            PageAnswer::Show
        } else {
            PageAnswer::NotFound
        },
        _ => if session {
            PageAnswer::Show
        } else {
            PageAnswer::ToLogin
        },
    }
}

} // verus!
