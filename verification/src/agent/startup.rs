//! What the command line of the agent asks for.

use crate::text::{concat2, same, views};
use vstd::prelude::*;
use vstd::string::*;

verus! {

/// What the command line asks for.
#[derive(Debug)]
pub enum Start {
    /// The version is shown.
    Version,
    /// The agent runs with the configuration in this file.
    Run { config: String },
    /// Nothing can be done, for this reason.
    Refused { why: String },
}

/// The view of a [`Start`].
#[verifier::ext_equal]
pub enum StartView {
    Version,
    Run { config: Seq<char> },
    Refused { why: Seq<char> },
}

impl View for Start {
    type V = StartView;

    open spec fn view(&self) -> StartView {
        match *self {
            Start::Version => StartView::Version,
            Start::Run { config } => StartView::Run { config: config@ },
            Start::Refused { why } => StartView::Refused { why: why@ },
        }
    }
}

/// What arguments ask for, where `config` is the file of the configuration so far. They are read from
/// the left; the first that decides counts.
pub open spec fn start_of(args: Seq<Seq<char>>, config: Seq<char>) -> StartView
    decreases args.len(),
{
    if args.len() == 0 {
        StartView::Run { config }
    } else if args[0] == "--version"@ || args[0] == "-V"@ {
        StartView::Version
    } else if args[0] == "--config"@ {
        if args.len() == 1 {
            StartView::Refused { why: "--config 需要参数"@ }
        } else {
            start_of(args.skip(2), args[1])
        }
    } else {
        StartView::Refused { why: "未知参数: "@ + args[0] }
    }
}

/// What the arguments ask for. `default_config` is the file of the configuration where they name none.
pub fn read_args(args: &[String], default_config: &str) -> (r: Start)
    ensures
        r@ == start_of(views(args@), default_config@),
{
    let ghost all = views(args@);
    let n: usize = args.len();
    let mut config = default_config.to_string();
    let mut i: usize = 0;
    assert(all.skip(0) =~= all);
    while i < n
        invariant
            all == views(args@),
            n == args@.len(),
            i <= n,
            start_of(all, default_config@) == start_of(all.skip(i as int), config@),
        decreases n - i,
    {
        assert(all.skip(i as int)[0] == args@[i as int]@);
        if same(args[i].as_str(), "--version") || same(args[i].as_str(), "-V") {
            return Start::Version;
        }
        if !same(args[i].as_str(), "--config") {
            return Start::Refused { why: concat2("未知参数: ", args[i].as_str()) };
        }
        if n - i == 1 {
            return Start::Refused { why: "--config 需要参数".to_string() };
        }
        assert(all.skip(i as int)[1] == args@[i + 1]@);
        assert(all.skip(i as int).skip(2) =~= all.skip(i + 2));
        config = args[i + 1].as_str().to_string();
        i = i + 2;
    }
    assert(all.skip(i as int) =~= Seq::empty());
    Start::Run { config }
}

} // verus!
