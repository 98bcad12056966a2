//! The frame around the pages: how the app starts, the tab that is open, the
//! document's title, the connection's status and the build's date.

use crate::document_title::{self, LastTitle, TitleChange};
use crate::text;
use vstd::prelude::*;

verus! {

/// The page that is open.
#[derive(Debug, Clone, Copy, PartialEq, Eq, Structural)]
pub enum Route {
    Browse,
    MyStore,
    Reputation,
    Payments,
}

/// The words and the style of the button that opens a page.
pub fn nav_button(route: Route, current: Route) -> (r: (&'static str, &'static str))
    ensures
        r.0@ == (match route {
            Route::Browse => "Browse"@,
            Route::MyStore => "My Store"@,
            Route::Reputation => "Reputation"@,
            Route::Payments => "Payments"@,
        }),
        r.1@ == (if route == current {
            "nav-btn active"@
        } else {
            "nav-btn"@
        }),
{
    let words = match route {
        Route::Browse => "Browse",
        Route::MyStore => "My Store",
        Route::Reputation => "Reputation",
        Route::Payments => "Payments",
    };
    let style = if route == current {
        "nav-btn active"
    } else {
        "nav-btn"
    };
    (words, style)
}

/// The title a page gives the document: the shown store's on the page that
/// shows one, and the app's own otherwise.
pub open spec fn page_title(route: Route, store_name: Option<Seq<char>>) -> Seq<char> {
    match store_name {
        Some(name) => if route == Route::Browse {
            "Harvest - "@ + name
        } else {
            "Harvest"@
        },
        None => "Harvest"@,
    }
}

/// Give the document the title of the page that is open. The store asked
/// about is the one the page shows, so the two cannot differ.
pub fn show_title(last: &mut LastTitle, route: Route, store_name: Option<&str>) -> (r: TitleChange)
    ensures
        ({
            let title = page_title(
                route,
                match store_name {
                    Some(name) => Some(name@),
                    None => None,
                },
            );
            &&& r.title@ == title
            &&& r.tell_parent == (old(last)@ != title)
            &&& final(last)@ == title
        }),
{
    match store_name {
        Some(name) => if route == Route::Browse {
            document_title::set_store_title(last, name)
        } else {
            document_title::set_default_title(last)
        },
        None => document_title::set_default_title(last),
    }
}

/// How the connection to the node stands.
#[derive(Debug, Clone, PartialEq, Eq)]
pub enum ConnectionStatus {
    Connected,
    Connecting,
    Error(String),
    Disconnected,
}

/// The style of the connection's status.
pub fn status_class(status: &ConnectionStatus) -> (r: &'static str)
    ensures
        r@ == (match *status {
            ConnectionStatus::Connected => "harvest-status connected"@,
            ConnectionStatus::Connecting => "harvest-status connecting"@,
            ConnectionStatus::Error(_) => "harvest-status error"@,
            ConnectionStatus::Disconnected => "harvest-status"@,
        }),
{
    match status {
        ConnectionStatus::Connected => "harvest-status connected",
        ConnectionStatus::Connecting => "harvest-status connecting",
        ConnectionStatus::Error(_) => "harvest-status error",
        ConnectionStatus::Disconnected => "harvest-status",
    }
}

/// What the app does as it starts, one step after another.
#[derive(Debug, Clone, Copy, PartialEq, Eq, Structural)]
pub enum StartStep {
    /// Open the connection to the node.
    Connect,
    /// Fetch the store a followed link names, which needs no delegate.
    OpenLink,
    /// Register the Harvest delegate.
    RegisterHarvest,
    /// Recall the conversations with stores whose state came first.
    RecallConversations,
    /// Ask for the bridge's configuration.
    AskBridge,
    /// Ask for the addresses watched.
    AskWatched,
    /// Ask for the seller's payment key.
    AskPaymentKey,
    /// Follow the default network's tip, whatever bridge there is.
    FollowTip,
    /// Register the Ghost Key vault.
    RegisterVault,
    /// Ask the vault what is already shared with this app.
    AskGhostKeys,
    /// Handle what the node sends.
    Listen,
    Stopped,
}

/// The step that follows one, by whether it failed. What only the Harvest
/// delegate can answer is not asked without it, and nothing else is given up
/// for another step's sake.
pub open spec fn step_after(step: StartStep, failed: bool) -> StartStep {
    match step {
        StartStep::Connect => if failed {
            StartStep::Stopped
        } else {
            StartStep::OpenLink
        },
        StartStep::OpenLink => StartStep::RegisterHarvest,
        StartStep::RegisterHarvest => if failed {
            StartStep::RegisterVault
        } else {
            StartStep::RecallConversations
        },
        StartStep::RecallConversations => StartStep::AskBridge,
        StartStep::AskBridge => StartStep::AskWatched,
        StartStep::AskWatched => StartStep::AskPaymentKey,
        StartStep::AskPaymentKey => StartStep::FollowTip,
        StartStep::FollowTip => StartStep::RegisterVault,
        StartStep::RegisterVault => if failed {
            StartStep::Listen
        } else {
            StartStep::AskGhostKeys
        },
        StartStep::AskGhostKeys => StartStep::Listen,
        StartStep::Listen => StartStep::Stopped,
        StartStep::Stopped => StartStep::Stopped,
    }
}

/// What a step that is done comes to.
#[derive(Debug, Clone, PartialEq, Eq)]
pub struct StartProgress {
    pub next: StartStep,
    /// How the connection stands now, where the step says so.
    pub status: Option<ConnectionStatus>,
    /// The payment key counts as answered though nothing will answer:
    /// otherwise the seller would wait for it, with no form to set one, for
    /// the rest of the session.
    pub payment_key_answered: bool,
}

/// What a step of the start comes to, by how it went.
pub fn after_start_step(step: StartStep, outcome: Result<(), String>) -> (r: StartProgress)
    ensures
        r.next == step_after(step, outcome is Err),
        (match (step, outcome) {
            (StartStep::Connect, Err(why)) => r.status == Some(ConnectionStatus::Error(why)),
            (StartStep::Listen, _) => r.status == Some(ConnectionStatus::Disconnected),
            _ => r.status is None,
        }),
        r.payment_key_answered == (step == StartStep::AskPaymentKey && outcome is Err),
{
    let failed = outcome.is_err();
    let next = match step {
        StartStep::Connect => if failed {
            StartStep::Stopped
        } else {
            StartStep::OpenLink
        },
        StartStep::OpenLink => StartStep::RegisterHarvest,
        StartStep::RegisterHarvest => if failed {
            StartStep::RegisterVault
        } else {
            StartStep::RecallConversations
        },
        StartStep::RecallConversations => StartStep::AskBridge,
        StartStep::AskBridge => StartStep::AskWatched,
        StartStep::AskWatched => StartStep::AskPaymentKey,
        StartStep::AskPaymentKey => StartStep::FollowTip,
        StartStep::FollowTip => StartStep::RegisterVault,
        StartStep::RegisterVault => if failed {
            StartStep::Listen
        } else {
            StartStep::AskGhostKeys
        },
        StartStep::AskGhostKeys => StartStep::Listen,
        StartStep::Listen => StartStep::Stopped,
        StartStep::Stopped => StartStep::Stopped,
    };
    let payment_key_answered = failed && step == StartStep::AskPaymentKey;
    let status = match (step, outcome) {
        (StartStep::Connect, Err(why)) => Some(ConnectionStatus::Error(why)),
        (StartStep::Listen, _) => Some(ConnectionStatus::Disconnected),
        _ => None,
    };
    StartProgress { next, status, payment_key_answered }
}

/// The step a start has come to, after steps that failed or did not.
pub open spec fn start_after(failures: Seq<bool>) -> StartStep
    decreases failures.len(),
{
    if failures.len() == 0 {
        StartStep::Connect
    } else {
        step_after(start_after(failures.drop_last()), failures.last())
    }
}

/// How many steps are left, at most, until the app listens.
spec fn steps_left(step: StartStep) -> nat {
    match step {
        StartStep::Connect => 10,
        StartStep::OpenLink => 9,
        StartStep::RegisterHarvest => 8,
        StartStep::RecallConversations => 7,
        StartStep::AskBridge => 6,
        StartStep::AskWatched => 5,
        StartStep::AskPaymentKey => 4,
        StartStep::FollowTip => 3,
        StartStep::RegisterVault => 2,
        StartStep::AskGhostKeys => 1,
        StartStep::Listen => 0,
        StartStep::Stopped => 0,
    }
}

/// A start that is connected comes to listen, and has tried to register the
/// vault on its way, whatever else fails.
pub proof fn a_connected_start_comes_to_listen(failures: Seq<bool>)
    requires
        failures.len() >= 10,
        !failures[0],
    ensures
        exists|m: int, n: int|
            0 <= m < n <= 10 && #[trigger] start_after(failures.take(m)) == StartStep::RegisterVault
                && #[trigger] start_after(failures.take(n)) == StartStep::Listen,
{
    lemma_start_goes_on(failures, 10);
}

proof fn lemma_start_goes_on(failures: Seq<bool>, k: int)
    requires
        1 <= k <= failures.len(),
        !failures[0],
    ensures
        ({
            let step = start_after(failures.take(k));
            ||| step != StartStep::Connect && step != StartStep::Listen && step
                != StartStep::Stopped && steps_left(step) + k <= 10 && (step
                == StartStep::AskGhostKeys ==> exists|m: int|
                0 <= m < k && #[trigger] start_after(failures.take(m)) == StartStep::RegisterVault)
            ||| exists|m: int, n: int|
                0 <= m < n <= k && #[trigger] start_after(failures.take(m))
                    == StartStep::RegisterVault && #[trigger] start_after(failures.take(n))
                    == StartStep::Listen
        }),
    decreases k,
{
    let here = failures.take(k);
    assert(here.drop_last() =~= failures.take(k - 1));
    assert(here.last() == failures[k - 1]);
    if k == 1 {
        assert(failures.take(0).len() == 0);
    } else {
        lemma_start_goes_on(failures, k - 1);
        let before = start_after(failures.take(k - 1));
        if before == StartStep::RegisterVault {
            assert(start_after(failures.take(k - 1)) == StartStep::RegisterVault);
        }
    }
}

/// A number in two digits, or in as many as it needs.
pub open spec fn two_digits(n: nat) -> Seq<char> {
    if n < 10 {
        "0"@ + text::decimal(n)
    } else {
        text::decimal(n)
    }
}

fn append_two_digits(s: &mut String, n: u32)
    ensures
        final(s)@ == old(s)@ + two_digits(n as nat),
{
    let ghost before = s@;
    if n < 10 {
        s.append("0");
    }
    s.append(&text::decimal_text(n as u64));
    assert(s@ =~= before + two_digits(n as nat));
}

/// When the app was built, to the minute. `month` counts from one.
pub fn format_build_time(year: u32, month: u32, day: u32, hours: u32, minutes: u32) -> (r: String)
    ensures
        r@ == text::decimal(year as nat) + "-"@ + two_digits(month as nat) + "-"@ + two_digits(
            day as nat,
        ) + " "@ + two_digits(hours as nat) + ":"@ + two_digits(minutes as nat),
{
    let mut r = text::decimal_text(year as u64);
    r.append("-");
    append_two_digits(&mut r, month);
    r.append("-");
    append_two_digits(&mut r, day);
    r.append(" ");
    append_two_digits(&mut r, hours);
    r.append(":");
    append_two_digits(&mut r, minutes);
    r
}

/// The page is titled with a store's name only while stores are browsed, and
/// where there is one.
pub proof fn only_a_browsed_store_is_in_the_title(route: Route, name: Seq<char>)
    ensures
        page_title(route, None) == "Harvest"@,
        route is Browse ==> page_title(route, Some(name)) == "Harvest - "@ + name,
        !(route is Browse) ==> page_title(route, Some(name)) == "Harvest"@,
{
}

/// A start goes on whatever fails, but for three steps: without a connection
/// it stops, without the Harvest delegate it goes straight on to the vault,
/// and without the vault it goes straight on to listen.
pub proof fn a_start_skips_only_what_a_failure_rules_out(failed: bool)
    ensures
        step_after(StartStep::Connect, true) == StartStep::Stopped,
        step_after(StartStep::Connect, false) == StartStep::OpenLink,
        step_after(StartStep::OpenLink, failed) == StartStep::RegisterHarvest,
        step_after(StartStep::RegisterHarvest, true) == StartStep::RegisterVault,
        step_after(StartStep::RegisterHarvest, false) == StartStep::RecallConversations,
        step_after(StartStep::RecallConversations, failed) == StartStep::AskBridge,
        step_after(StartStep::AskBridge, failed) == StartStep::AskWatched,
        step_after(StartStep::AskWatched, failed) == StartStep::AskPaymentKey,
        step_after(StartStep::AskPaymentKey, failed) == StartStep::FollowTip,
        step_after(StartStep::FollowTip, failed) == StartStep::RegisterVault,
        step_after(StartStep::RegisterVault, true) == StartStep::Listen,
        step_after(StartStep::RegisterVault, false) == StartStep::AskGhostKeys,
        step_after(StartStep::AskGhostKeys, failed) == StartStep::Listen,
        step_after(StartStep::Listen, failed) == StartStep::Stopped,
        step_after(StartStep::Stopped, failed) == StartStep::Stopped,
{
}

/// A number below a hundred is written in two digits, and reads back as
/// itself.
pub proof fn two_digits_read_back(n: nat)
    requires
        n < 100,
    ensures
        two_digits(n).len() == 2,
        text::parsed_number(two_digits(n)) == Some(n),
{
    reveal_strlit("0");
    text::a_number_reads_back_from_its_digits(n);
    let tens = n / 10;
    if n < 10 {
        let c = text::digit_char(n);
        assert(two_digits(n) =~= seq!['0'].push(c));
        text::each_digit_is_worth_ten_of_the_next(seq!['0'], '0');
        text::each_digit_is_worth_ten_of_the_next(seq!['0'], c);
    } else {
        assert(text::decimal(tens) == seq![text::digit_char(tens)]);
        assert(two_digits(n) == text::decimal(tens).push(text::digit_char(n % 10)));
    }
}

} // verus!
