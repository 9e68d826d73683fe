//! One build exchange with the device: the answers it reads, the state
//! machine that waits for the right one, and what holds of every run of it.

use crate::encoding::{is_random_id, osc_decode_message, osc_decoded};
use crate::package::{
    command_frame, options, requested_target, CmdView, ConfigView, PackageCmd,
    PackageCreateConfig, TargetView,
};
use crate::path::{path_segments, segments_of};
use crate::status::Failure;
use crate::text::text_eq;
use crate::uri::{resource_uri, uri_of};
use vstd::prelude::*;

verus! {

/// The address of a frame that carries the answer to a command.
pub open spec fn response_address() -> Seq<char> {
    "/rnbo/resp"@
}

/// The text that a decoded frame carries as an answer: the first argument of
/// a message to the response address, if that argument is a string.
pub open spec fn response_text_of(decoded: Option<(Seq<char>, Seq<Option<Seq<char>>>)>) -> Option<
    Seq<char>,
> {
    match decoded {
        Some((addr, args)) => if addr == response_address() && args.len() > 0 {
            args[0]
        } else {
            None
        },
        None => None,
    }
}

/// Picks the answer's text out of a decoded message.
pub fn response_document(addr: &str, args: &Vec<Option<String>>) -> (text: Option<String>)
    ensures
        text.deep_view() == response_text_of(Some((addr@, args.deep_view()))),
{
    if text_eq(addr, "/rnbo/resp") && args.len() > 0 {
        assert(args.deep_view()[0] == args[0].deep_view());
        match &args[0] {
            Some(text) => Some(String::from_str(text.as_str())),
            None => None,
        }
    } else {
        None
    }
}

/// Reads an inbound frame: the text of the answer it carries, or `None` if it
/// is no OSC message to the response address with a string as first argument.
pub fn response_text(frame: &[u8]) -> (text: Option<String>)
    ensures
        text.deep_view() == response_text_of(osc_decoded(frame@)),
{
    match osc_decode_message(frame) {
        Some((addr, args)) => response_document(addr.as_str(), &args),
        None => None,
    }
}

/// The result that an answer reports: the package's path below the
/// `packages` category and the progress of the build in whole percent.
#[derive(Clone, Debug, PartialEq, Eq)]
pub struct ResultBody {
    pub filename: String,
    pub progress: u32,
}

/// An answer of the device, decoded: the correlation id it echoes, whether it
/// carries an error indicator, and the result if it carries one.
#[derive(Clone, Debug, PartialEq, Eq)]
pub struct PackageResponse {
    pub id: u128,
    pub error: bool,
    pub result: Option<ResultBody>,
}

/// A result, as a value.
pub struct ResultView {
    pub filename: Seq<char>,
    pub progress: u32,
}

/// An answer, as a value.
pub struct ResponseView {
    pub id: u128,
    pub error: bool,
    pub result: Option<ResultView>,
}

impl View for ResultBody {
    type V = ResultView;

    open spec fn view(&self) -> ResultView {
        ResultView { filename: self.filename@, progress: self.progress }
    }
}

impl View for PackageResponse {
    type V = ResponseView;

    open spec fn view(&self) -> ResponseView {
        ResponseView {
            id: self.id,
            error: self.error,
            result: match self.result {
                Some(result) => Some(result@),
                None => None,
            },
        }
    }
}

/// What an answer means to the exchange that waits under `id`.
pub enum Verdict {
    /// The build is done; the package is at this path.
    Completed(Seq<char>),
    /// The device reported an error.
    Failed,
    /// The wait goes on: the answer belongs to another exchange, or reports
    /// progress only.
    Pending,
}

/// What an answer means to the exchange that waits under `id`. An answer
/// under another id is never more than pending. Under the same id a result
/// with full progress completes the exchange, an error indicator fails it,
/// and anything else leaves it pending.
pub open spec fn verdict(id: u128, response: ResponseView) -> Verdict {
    if response.id != id {
        Verdict::Pending
    } else if response.result is Some && response.result->0.progress >= 100 {
        Verdict::Completed(response.result->0.filename)
    } else if response.error {
        Verdict::Failed
    } else {
        Verdict::Pending
    }
}

/// The state of one build exchange.
#[derive(Clone, Debug, PartialEq, Eq)]
pub enum ExchangeState {
    Idle,
    Connecting,
    Sending,
    AwaitingResponse,
    /// The device built the package at this path.
    Completed(String),
    Failed,
    TimedOut,
    DependencyFailure,
}

/// The state of one build exchange, as a value.
pub enum StateView {
    Idle,
    Connecting,
    Sending,
    AwaitingResponse,
    Completed(Seq<char>),
    Failed,
    TimedOut,
    DependencyFailure,
}

impl View for ExchangeState {
    type V = StateView;

    open spec fn view(&self) -> StateView {
        match self {
            ExchangeState::Idle => StateView::Idle,
            ExchangeState::Connecting => StateView::Connecting,
            ExchangeState::Sending => StateView::Sending,
            ExchangeState::AwaitingResponse => StateView::AwaitingResponse,
            ExchangeState::Completed(filename) => StateView::Completed(filename@),
            ExchangeState::Failed => StateView::Failed,
            ExchangeState::TimedOut => StateView::TimedOut,
            ExchangeState::DependencyFailure => StateView::DependencyFailure,
        }
    }
}

/// What can happen to an exchange.
#[derive(Clone, Debug, PartialEq, Eq)]
pub enum ExchangeEvent {
    /// The request arrived.
    Started,
    /// The channel to the device is open.
    Connected,
    /// The device refused the connection or the upgrade to a channel.
    ConnectFailed,
    /// The command frame went out.
    Sent,
    /// The command frame could not be sent.
    SendFailed,
    /// A frame arrived that carries this answer.
    Response(PackageResponse),
    /// A frame arrived that carries no answer.
    Unrelated,
    /// The channel ended or failed while reading.
    ChannelClosed,
    /// The deadline of the exchange passed.
    DeadlineElapsed,
}

/// An event, as a value.
pub enum EventView {
    Started,
    Connected,
    ConnectFailed,
    Sent,
    SendFailed,
    Response(ResponseView),
    Unrelated,
    ChannelClosed,
    DeadlineElapsed,
}

impl View for ExchangeEvent {
    type V = EventView;

    open spec fn view(&self) -> EventView {
        match self {
            ExchangeEvent::Started => EventView::Started,
            ExchangeEvent::Connected => EventView::Connected,
            ExchangeEvent::ConnectFailed => EventView::ConnectFailed,
            ExchangeEvent::Sent => EventView::Sent,
            ExchangeEvent::SendFailed => EventView::SendFailed,
            ExchangeEvent::Response(response) => EventView::Response(response@),
            ExchangeEvent::Unrelated => EventView::Unrelated,
            ExchangeEvent::ChannelClosed => EventView::ChannelClosed,
            ExchangeEvent::DeadlineElapsed => EventView::DeadlineElapsed,
        }
    }
}

/// Whether a state is final.
pub open spec fn is_terminal(state: StateView) -> bool {
    state is Completed || state is Failed || state is TimedOut || state is DependencyFailure
}

/// The state after an event, for the exchange that waits under `id`.
///
/// A final state stays. The deadline ends every other state in `TimedOut`.
/// Otherwise an event acts only in the state that expects it: the start in
/// `Idle`, the outcome of connecting in `Connecting`, the outcome of sending
/// in `Sending` (a failed send still leads on to the wait), an answer in
/// `AwaitingResponse`. The end of the channel fails the exchange once it is
/// sending or waiting.
pub open spec fn next_state(state: StateView, id: u128, event: EventView) -> StateView {
    if is_terminal(state) {
        state
    } else {
        match event {
            EventView::DeadlineElapsed => StateView::TimedOut,
            EventView::Started => if state is Idle {
                StateView::Connecting
            } else {
                state
            },
            EventView::Connected => if state is Connecting {
                StateView::Sending
            } else {
                state
            },
            EventView::ConnectFailed => if state is Connecting {
                StateView::DependencyFailure
            } else {
                state
            },
            EventView::Sent | EventView::SendFailed => if state is Sending {
                StateView::AwaitingResponse
            } else {
                state
            },
            EventView::Response(response) => if state is AwaitingResponse {
                match verdict(id, response) {
                    Verdict::Completed(filename) => StateView::Completed(filename),
                    Verdict::Failed => StateView::Failed,
                    Verdict::Pending => state,
                }
            } else {
                state
            },
            EventView::Unrelated => state,
            EventView::ChannelClosed => if state is Sending || state is AwaitingResponse {
                StateView::DependencyFailure
            } else {
                state
            },
        }
    }
}

/// What the caller of an exchange is to do next.
#[derive(Clone, Debug, PartialEq, Eq)]
pub enum ExchangeAction {
    /// Nothing yet: the exchange has not started.
    Wait,
    /// Open the channel to the device.
    Connect,
    /// Send this frame.
    Send(Vec<u8>),
    /// Read the next frame.
    Receive,
    /// Answer with a redirect to this URI.
    Redirect(String),
    /// Answer with this failure.
    Fail(Failure),
}

/// An action, as a value.
pub enum ActionView {
    Wait,
    Connect,
    Send(Seq<u8>),
    Receive,
    Redirect(Seq<char>),
    Fail(Failure),
}

impl View for ExchangeAction {
    type V = ActionView;

    open spec fn view(&self) -> ActionView {
        match self {
            ExchangeAction::Wait => ActionView::Wait,
            ExchangeAction::Connect => ActionView::Connect,
            ExchangeAction::Send(frame) => ActionView::Send(frame@),
            ExchangeAction::Receive => ActionView::Receive,
            ExchangeAction::Redirect(uri) => ActionView::Redirect(uri@),
            ExchangeAction::Fail(failure) => ActionView::Fail(*failure),
        }
    }
}

/// The URI under which the package at `filename` is retrieved: the path's
/// segments below the `packages` category.
pub open spec fn package_uri(filename: Seq<char>) -> Seq<char> {
    uri_of("packages"@, segments_of(filename))
}

/// What a state asks of the caller. A completed exchange redirects to the
/// package, a failed one reports `NotFound`, one out of time `Timeout`, and
/// one that lost the device `DependencyFailure`.
pub open spec fn action_of(state: StateView, cmd: CmdView) -> ActionView {
    match state {
        StateView::Idle => ActionView::Wait,
        StateView::Connecting => ActionView::Connect,
        StateView::Sending => ActionView::Send(command_frame(cmd)),
        StateView::AwaitingResponse => ActionView::Receive,
        StateView::Completed(filename) => ActionView::Redirect(package_uri(filename)),
        StateView::Failed => ActionView::Fail(Failure::NotFound),
        StateView::TimedOut => ActionView::Fail(Failure::Timeout),
        StateView::DependencyFailure => ActionView::Fail(Failure::DependencyFailure),
    }
}

/// One build exchange: the command and how far the exchange has come.
#[derive(Clone, Debug, PartialEq, Eq)]
pub struct Exchange {
    pub cmd: PackageCmd,
    pub state: ExchangeState,
}

/// An exchange, as a value.
pub struct ExchangeView {
    pub cmd: CmdView,
    pub state: StateView,
}

impl View for Exchange {
    type V = ExchangeView;

    open spec fn view(&self) -> ExchangeView {
        ExchangeView { cmd: self.cmd@, state: self.state@ }
    }
}

/// Builds the URI under which a package is retrieved.
pub fn redirect_uri(filename: &str) -> (uri: String)
    ensures
        uri@ == package_uri(filename@),
{
    let segments = path_segments(filename);
    resource_uri("packages", &segments)
}

impl PackageResponse {
    /// Whether this answer completes the exchange that waits under `id`.
    pub fn completes(&self, id: u128) -> (done: bool)
        ensures
            done == (verdict(id, self@) is Completed),
    {
        self.id == id && match &self.result {
            Some(result) => result.progress >= 100,
            None => false,
        }
    }

    /// Whether this answer fails the exchange that waits under `id`.
    pub fn fails(&self, id: u128) -> (failed: bool)
        ensures
            failed == (verdict(id, self@) is Failed),
    {
        self.id == id && self.error && !self.completes(id)
    }
}

impl Exchange {
    /// An exchange for a command, not yet started.
    pub fn new(cmd: PackageCmd) -> (exchange: Self)
        ensures
            exchange@ == (ExchangeView { cmd: cmd@, state: StateView::Idle }),
    {
        Exchange { cmd, state: ExchangeState::Idle }
    }

    /// Whether the exchange has reached a final state.
    pub fn is_finished(&self) -> (finished: bool)
        ensures
            finished == is_terminal(self@.state),
    {
        match &self.state {
            ExchangeState::Completed(_) => true,
            ExchangeState::Failed => true,
            ExchangeState::TimedOut => true,
            ExchangeState::DependencyFailure => true,
            _ => false,
        }
    }

    /// What the current state asks of the caller.
    pub fn action(&self) -> (action: ExchangeAction)
        ensures
            action@ == action_of(self@.state, self@.cmd),
    {
        match &self.state {
            ExchangeState::Idle => ExchangeAction::Wait,
            ExchangeState::Connecting => ExchangeAction::Connect,
            ExchangeState::Sending => ExchangeAction::Send(self.cmd.frame()),
            ExchangeState::AwaitingResponse => ExchangeAction::Receive,
            ExchangeState::Completed(filename) => ExchangeAction::Redirect(
                redirect_uri(filename.as_str()),
            ),
            ExchangeState::Failed => ExchangeAction::Fail(Failure::NotFound),
            ExchangeState::TimedOut => ExchangeAction::Fail(Failure::Timeout),
            ExchangeState::DependencyFailure => ExchangeAction::Fail(Failure::DependencyFailure),
        }
    }

    /// Takes one event: moves to the next state and says what to do next.
    pub fn step(&mut self, event: ExchangeEvent) -> (action: ExchangeAction)
        ensures
            final(self)@.cmd == old(self)@.cmd,
            final(self)@.state == next_state(old(self)@.state, old(self)@.cmd.id, event@),
            action@ == action_of(final(self)@.state, final(self)@.cmd),
    {
        if !self.is_finished() {
            match event {
                ExchangeEvent::DeadlineElapsed => {
                    self.state = ExchangeState::TimedOut;
                },
                ExchangeEvent::Started => {
                    if let ExchangeState::Idle = &self.state {
                        self.state = ExchangeState::Connecting;
                    }
                },
                ExchangeEvent::Connected => {
                    if let ExchangeState::Connecting = &self.state {
                        self.state = ExchangeState::Sending;
                    }
                },
                ExchangeEvent::ConnectFailed => {
                    if let ExchangeState::Connecting = &self.state {
                        self.state = ExchangeState::DependencyFailure;
                    }
                },
                ExchangeEvent::Sent | ExchangeEvent::SendFailed => {
                    if let ExchangeState::Sending = &self.state {
                        self.state = ExchangeState::AwaitingResponse;
                    }
                },
                ExchangeEvent::Response(response) => {
                    if let ExchangeState::AwaitingResponse = &self.state {
                        if response.completes(self.cmd.id) {
                            match response.result {
                                Some(result) => {
                                    self.state = ExchangeState::Completed(result.filename);
                                },
                                None => {},
                            }
                        } else if response.fails(self.cmd.id) {
                            self.state = ExchangeState::Failed;
                        }
                    }
                },
                ExchangeEvent::Unrelated => {},
                ExchangeEvent::ChannelClosed => {
                    match &self.state {
                        ExchangeState::Sending | ExchangeState::AwaitingResponse => {
                            self.state = ExchangeState::DependencyFailure;
                        },
                        _ => {},
                    }
                },
            }
        }
        self.action()
    }
}

/// Whether a result is a new exchange for `target` and `config`, not yet
/// started, under a random id.
pub open spec fn starts_exchange(
    result: Result<Exchange, Failure>,
    target: TargetView,
    config: ConfigView,
) -> bool {
    result matches Ok(exchange) && exchange@.state == StateView::Idle && exchange@.cmd.target
        == target && exchange@.cmd.config == config && is_random_id(exchange.cmd.id)
}

/// Opens the exchange for a build request. A request whose kind and name do
/// not fit together is not found, and nothing is opened.
pub fn get_impl(packagetype: &str, name: Option<&str>, config: PackageCreateConfig) -> (result:
    Result<Exchange, Failure>)
    ensures
        match requested_target(packagetype@, name.deep_view()) {
            Some(target) => starts_exchange(result, target, config@),
            None => result matches Err(failure) && failure == Failure::NotFound,
        },
{
    match PackageCmd::for_request(packagetype, name, config) {
        Some(cmd) => Ok(Exchange::new(cmd)),
        None => Err(Failure::NotFound),
    }
}

/// Opens the exchange for a request to build one graph or one patcher.
pub fn get(
    packagetype: &str,
    name: &str,
    rnbo_version: Option<&str>,
    include_presets: Option<bool>,
    include_views: Option<bool>,
    include_binaries: Option<bool>,
    include_datafiles: Option<bool>,
) -> (result: Result<Exchange, Failure>)
    ensures
        match requested_target(packagetype@, Some(name@)) {
            Some(target) => starts_exchange(
                result,
                target,
                ConfigView {
                    rnbo_version: rnbo_version.deep_view(),
                    include_presets,
                    include_views,
                    include_datafiles,
                    include_binaries,
                },
            ),
            None => result matches Err(failure) && failure == Failure::NotFound,
        },
{
    let config = options(
        rnbo_version,
        include_presets,
        include_views,
        include_binaries,
        include_datafiles,
    );
    get_impl(packagetype, Some(name), config)
}

/// Opens the exchange for a request to build everything.
pub fn get_all(
    rnbo_version: Option<&str>,
    include_presets: Option<bool>,
    include_views: Option<bool>,
    include_binaries: Option<bool>,
    include_datafiles: Option<bool>,
) -> (result: Result<Exchange, Failure>)
    ensures
        starts_exchange(
            result,
            TargetView::All,
            ConfigView {
                rnbo_version: rnbo_version.deep_view(),
                include_presets,
                include_views,
                include_datafiles,
                include_binaries,
            },
        ),
{
    let config = options(
        rnbo_version,
        include_presets,
        include_views,
        include_binaries,
        include_datafiles,
    );
    get_impl("all", None, config)
}

/// The state after a sequence of events, taken in order.
pub open spec fn run(state: StateView, id: u128, events: Seq<EventView>) -> StateView
    decreases events.len(),
{
    if events.len() == 0 {
        state
    } else {
        next_state(run(state, id, events.drop_last()), id, events.last())
    }
}

/// Whether an event is an answer under `id` that reports the package at
/// `filename` with full progress.
pub open spec fn completing(id: u128, event: EventView, filename: Seq<char>) -> bool {
    event matches EventView::Response(response) && response.id == id && response.result is Some
        && response.result->0.progress >= 100 && response.result->0.filename == filename
}

/// Whether an event is an answer under `id` that ends the wait: one that
/// completes or fails the exchange.
pub open spec fn resolving(id: u128, event: EventView) -> bool {
    event matches EventView::Response(response) && !(verdict(id, response) is Pending)
}

/// An exchange completes only on an answer that echoes its id: if a run of
/// events ends in `Completed`, and did not start there, one of the events is an
/// answer under that id with full progress, and it names the package.
pub proof fn lemma_completes_only_on_matching_response(
    state: StateView,
    id: u128,
    events: Seq<EventView>,
)
    requires
        !(state is Completed),
    ensures
        run(state, id, events) matches StateView::Completed(filename) ==> exists|i: int|
            0 <= i < events.len() && completing(id, #[trigger] events[i], filename),
    decreases events.len(),
{
    if events.len() > 0 {
        let earlier = events.drop_last();
        lemma_completes_only_on_matching_response(state, id, earlier);
        if let StateView::Completed(filename) = run(state, id, events) {
            if let StateView::Completed(before) = run(state, id, earlier) {
                let i = choose|i: int|
                    0 <= i < earlier.len() && completing(id, #[trigger] earlier[i], before);
                assert(events[i] == earlier[i]);
            } else {
                assert(completing(id, events[events.len() - 1], filename));
            }
        }
    }
}

/// Answers under other ids never end the wait: a run of such answers leaves
/// the exchange in the state in which it was.
pub proof fn lemma_other_ids_never_end_the_wait(state: StateView, id: u128, events: Seq<EventView>)
    requires
        forall|i: int|
            0 <= i < events.len() ==> (#[trigger] events[i] matches EventView::Response(response)
                && response.id != id),
    ensures
        run(state, id, events) == state,
    decreases events.len(),
{
    if events.len() > 0 {
        let earlier = events.drop_last();
        assert forall|i: int| 0 <= i < earlier.len() implies (#[trigger] earlier[i]
            matches EventView::Response(response) && response.id != id) by {
            assert(earlier[i] == events[i]);
        }
        lemma_other_ids_never_end_the_wait(state, id, earlier);
        assert(events.last() == events[events.len() - 1]);
    }
}

/// A final state is final: no run of events leads out of it.
pub proof fn lemma_final_states_stay(state: StateView, id: u128, events: Seq<EventView>)
    requires
        is_terminal(state),
    ensures
        run(state, id, events) == state,
    decreases events.len(),
{
    if events.len() > 0 {
        lemma_final_states_stay(state, id, events.drop_last());
    }
}

/// Without an answer that ends the wait, a run of events neither completes
/// nor fails an exchange.
proof fn lemma_unresolved_run(state: StateView, id: u128, events: Seq<EventView>)
    requires
        !is_terminal(state),
        forall|i: int| 0 <= i < events.len() ==> !resolving(id, #[trigger] events[i]),
    ensures
        !(run(state, id, events) is Completed),
        !(run(state, id, events) is Failed),
    decreases events.len(),
{
    if events.len() > 0 {
        let earlier = events.drop_last();
        assert forall|i: int| 0 <= i < earlier.len() implies !resolving(
            id,
            #[trigger] earlier[i],
        ) by {
            assert(earlier[i] == events[i]);
        }
        lemma_unresolved_run(state, id, earlier);
        assert(!resolving(id, events[events.len() - 1]));
    }
}

/// An exchange that gets no answer that ends its wait reports a timeout when
/// the deadline passes, whatever else arrived before, unless the device was
/// lost first.
pub proof fn lemma_deadline_reports_timeout(
    state: StateView,
    cmd: CmdView,
    events: Seq<EventView>,
)
    requires
        !is_terminal(state),
        forall|i: int| 0 <= i < events.len() ==> !resolving(cmd.id, #[trigger] events[i]),
        !(run(state, cmd.id, events) is DependencyFailure),
    ensures
        run(state, cmd.id, events.push(EventView::DeadlineElapsed)) == StateView::TimedOut,
        action_of(run(state, cmd.id, events.push(EventView::DeadlineElapsed)), cmd)
            == ActionView::Fail(Failure::Timeout),
        Failure::Timeout.code() == 504,
{
    lemma_unresolved_run(state, cmd.id, events);
    let all = events.push(EventView::DeadlineElapsed);
    assert(all.drop_last() =~= events);
    assert(all.last() == EventView::DeadlineElapsed);
}

} // verus!
