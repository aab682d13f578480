//! The development loop: the messages between the dev server, the app worker and the
//! preview client, what the worker queues from the server's control messages, the batch
//! it sends on flush, the server's answer to each client message, the preview renderer's
//! handling of server messages, and the server's command line.

use vstd::prelude::*;
use vstd::string::StrSliceExecFns;
use crate::backend::{Backend, BackendError};
use crate::events::UiEvent;
use crate::float32::Fp32;
use crate::layout::{EdgeInsets, LayoutFrame};
use crate::mutation::{Mutation, ProtocolVersion};

verus! {

/// The size of the preview host and its safe-area insets.
#[derive(Clone, Copy, Debug, PartialEq)]
pub struct HostMetrics {
    pub width: Fp32,
    pub height: Fp32,
    pub safe_area: EdgeInsets,
}

impl HostMetrics {
    pub fn new(width: Fp32, height: Fp32, safe_area: EdgeInsets) -> (r: HostMetrics)
        ensures
            r == (HostMetrics { width, height, safe_area }),
    {
        HostMetrics { width, height, safe_area }
    }
}

/// What the dev server tells the app worker.
#[derive(Clone, Debug, PartialEq)]
pub enum WorkerControlMessage {
    SetHostMetrics { host: HostMetrics },
    UiEvent(UiEvent),
    RequestRepaint,
    RequestFullResync,
    Shutdown,
}

/// What the app worker tells the dev server.
#[derive(Clone, Debug, PartialEq)]
pub enum WorkerOutputMessage {
    RenderBatch { protocol_version: ProtocolVersion, mutations: Vec<Mutation>, layout: Vec<LayoutFrame> },
}

/// What the preview client tells the dev server.
#[derive(Clone, Debug, PartialEq)]
pub enum ClientMessage {
    Hello { app_id: String, host: HostMetrics },
    HostResized { host: HostMetrics },
    UiEvent(UiEvent),
    Ping,
}

/// What the dev server tells the preview client.
#[derive(Clone, Debug, PartialEq)]
pub enum ServerMessage {
    HelloAck { app_id: String, protocol_version: ProtocolVersion },
    Reloading,
    ResetUi,
    RenderBatch { protocol_version: ProtocolVersion, mutations: Vec<Mutation>, layout: Vec<LayoutFrame> },
    BuildFailed { message: String },
}

/// The control message that passes new host metrics to the worker.
pub fn worker_control_from_host(host: HostMetrics) -> (r: WorkerControlMessage)
    ensures
        r == (WorkerControlMessage::SetHostMetrics { host }),
{
    WorkerControlMessage::SetHostMetrics { host }
}

/// What the worker has received from the server and not acted on yet.
pub struct WorkerInbox {
    pub events: Vec<UiEvent>,
    pub pending_host: Option<HostMetrics>,
    pub repaint: bool,
    pub full_resync: bool,
    pub shutdown: bool,
}

impl WorkerInbox {
    /// Nothing received.
    pub fn new() -> (r: WorkerInbox)
        ensures
            r.events@ == Seq::<UiEvent>::empty(),
            r.pending_host is None,
            !r.repaint,
            !r.full_resync,
            !r.shutdown,
    {
        WorkerInbox { events: Vec::new(), pending_host: None, repaint: false, full_resync: false, shutdown: false }
    }

    /// Records `message`; returns whether to keep reading (not after a shutdown). New host
    /// metrics replace any pending ones, an event is queued, and each request sets its flag.
    pub fn receive(&mut self, message: WorkerControlMessage) -> (keep_reading: bool)
        ensures
            keep_reading == !(message is Shutdown),
            final(self).events@ == match message {
                WorkerControlMessage::UiEvent(e) => old(self).events@.push(e),
                _ => old(self).events@,
            },
            final(self).pending_host == match message {
                WorkerControlMessage::SetHostMetrics { host } => Some(host),
                _ => old(self).pending_host,
            },
            final(self).repaint == (old(self).repaint || message is RequestRepaint),
            final(self).full_resync == (old(self).full_resync || message is RequestFullResync),
            final(self).shutdown == (old(self).shutdown || message is Shutdown),
    {
        match message {
            WorkerControlMessage::SetHostMetrics { host } => {
                self.pending_host = Some(host);
                true
            },
            WorkerControlMessage::UiEvent(event) => {
                self.events.push(event);
                true
            },
            WorkerControlMessage::RequestRepaint => {
                self.repaint = true;
                true
            },
            WorkerControlMessage::RequestFullResync => {
                self.full_resync = true;
                true
            },
            WorkerControlMessage::Shutdown => {
                self.shutdown = true;
                false
            },
        }
    }

    /// The server's stream failed: the worker shuts down.
    pub fn read_failed(&mut self)
        ensures
            final(self).shutdown,
            final(self).events@ == old(self).events@,
            final(self).pending_host == old(self).pending_host,
            final(self).repaint == old(self).repaint,
            final(self).full_resync == old(self).full_resync,
    {
        self.shutdown = true;
    }

    /// The pending host metrics, if any; none are pending afterwards.
    pub fn take_pending_host(&mut self) -> (r: Option<HostMetrics>)
        ensures
            r == old(self).pending_host,
            final(self).pending_host is None,
            final(self).events@ == old(self).events@,
            final(self).repaint == old(self).repaint,
            final(self).full_resync == old(self).full_resync,
            final(self).shutdown == old(self).shutdown,
    {
        let r = self.pending_host;
        self.pending_host = None;
        r
    }

    /// Whether a repaint was requested; the request is cleared.
    pub fn take_repaint(&mut self) -> (r: bool)
        ensures
            r == old(self).repaint,
            !final(self).repaint,
            final(self).events@ == old(self).events@,
            final(self).pending_host == old(self).pending_host,
            final(self).full_resync == old(self).full_resync,
            final(self).shutdown == old(self).shutdown,
    {
        let r = self.repaint;
        self.repaint = false;
        r
    }

    /// Whether a full resync was requested; the request is cleared.
    pub fn take_full_resync(&mut self) -> (r: bool)
        ensures
            r == old(self).full_resync,
            !final(self).full_resync,
            final(self).events@ == old(self).events@,
            final(self).pending_host == old(self).pending_host,
            final(self).repaint == old(self).repaint,
            final(self).shutdown == old(self).shutdown,
    {
        let r = self.full_resync;
        self.full_resync = false;
        r
    }

    /// Whether the worker was told to shut down.
    pub fn is_shutdown(&self) -> (r: bool)
        ensures
            r == self.shutdown,
    {
        self.shutdown
    }

    /// The queued events, oldest first; the queue is empty afterwards.
    pub fn take_events(&mut self) -> (r: Vec<UiEvent>)
        ensures
            r@ == old(self).events@,
            final(self).events@ == Seq::<UiEvent>::empty(),
            final(self).pending_host == old(self).pending_host,
            final(self).repaint == old(self).repaint,
            final(self).full_resync == old(self).full_resync,
            final(self).shutdown == old(self).shutdown,
    {
        let mut taken = Vec::new();
        std::mem::swap(&mut taken, &mut self.events);
        taken
    }
}

impl Mutation {
    /// An exact copy of the mutation.
    pub fn clone_mutation(&self) -> (r: Mutation)
        ensures
            r == *self,
    {
        match self {
            Mutation::CreateNode { id, kind } => Mutation::CreateNode { id: *id, kind: *kind },
            Mutation::CreateTextNode { id, text } => Mutation::CreateTextNode { id: *id, text: text.clone() },
            Mutation::SetText { id, text } => Mutation::SetText { id: *id, text: text.clone() },
            Mutation::SetProp { id, key, value } => Mutation::SetProp {
                id: *id,
                key: *key,
                value: value.clone_value(),
            },
            Mutation::UnsetProp { id, key } => Mutation::UnsetProp { id: *id, key: *key },
            Mutation::InsertChild { parent, child, index } => Mutation::InsertChild {
                parent: *parent,
                child: *child,
                index: *index,
            },
            Mutation::MoveNode { id, new_parent, index } => Mutation::MoveNode {
                id: *id,
                new_parent: *new_parent,
                index: *index,
            },
            Mutation::ReplaceNode { old, new_id, kind } => Mutation::ReplaceNode {
                old: *old,
                new_id: *new_id,
                kind: *kind,
            },
            Mutation::RemoveNode { id } => Mutation::RemoveNode { id: *id },
            Mutation::AttachEventListener { id, event } => Mutation::AttachEventListener {
                id: *id,
                event: *event,
            },
        }
    }
}

/// The mutations and frames the worker has not sent yet.
pub struct PendingBatch {
    pub mutations: Vec<Mutation>,
    pub layout: Vec<LayoutFrame>,
}

impl PendingBatch {
    /// Nothing pending.
    pub fn new() -> (r: PendingBatch)
        ensures
            r.mutations@ == Seq::<Mutation>::empty(),
            r.layout@ == Seq::<LayoutFrame>::empty(),
    {
        PendingBatch { mutations: Vec::new(), layout: Vec::new() }
    }

    /// Queues `mutations` after those pending.
    pub fn add_mutations(&mut self, mutations: &[Mutation])
        ensures
            final(self).mutations@ == old(self).mutations@ + mutations@,
            final(self).layout@ == old(self).layout@,
    {
        let mut i: usize = 0;
        while i < mutations.len()
            invariant
                i <= mutations@.len(),
                self.mutations@ == old(self).mutations@ + mutations@.subrange(0, i as int),
                self.layout@ == old(self).layout@,
            decreases mutations@.len() - i,
        {
            self.mutations.push(mutations[i].clone_mutation());
            proof {
                assert(mutations@.subrange(0, i + 1) =~= mutations@.subrange(0, i as int).push(mutations@[i as int]));
            }
            i = i + 1;
        }
        proof {
            assert(mutations@.subrange(0, mutations@.len() as int) =~= mutations@);
        }
    }

    /// Queues `frames` after those pending.
    pub fn add_layout(&mut self, frames: &[LayoutFrame])
        ensures
            final(self).layout@ == old(self).layout@ + frames@,
            final(self).mutations@ == old(self).mutations@,
    {
        let mut i: usize = 0;
        while i < frames.len()
            invariant
                i <= frames@.len(),
                self.layout@ == old(self).layout@ + frames@.subrange(0, i as int),
                self.mutations@ == old(self).mutations@,
            decreases frames@.len() - i,
        {
            self.layout.push(frames[i]);
            proof {
                assert(frames@.subrange(0, i + 1) =~= frames@.subrange(0, i as int).push(frames@[i as int]));
            }
            i = i + 1;
        }
        proof {
            assert(frames@.subrange(0, frames@.len() as int) =~= frames@);
        }
    }

    /// The batch to send: none when nothing is pending, else everything pending under the
    /// first protocol version; nothing is pending afterwards.
    pub fn take_batch(&mut self) -> (r: Option<WorkerOutputMessage>)
        ensures
            old(self).mutations@.len() == 0 && old(self).layout@.len() == 0 ==> r is None,
            !(old(self).mutations@.len() == 0 && old(self).layout@.len() == 0) ==> (r matches Some(
                WorkerOutputMessage::RenderBatch { protocol_version, mutations, layout },
            ) && protocol_version == ProtocolVersion::V1 && mutations@ == old(self).mutations@
                && layout@ == old(self).layout@),
            final(self).mutations@ == Seq::<Mutation>::empty(),
            final(self).layout@ == Seq::<LayoutFrame>::empty(),
    {
        if self.mutations.len() == 0 && self.layout.len() == 0 {
            return None;
        }
        let mut mutations = Vec::new();
        std::mem::swap(&mut mutations, &mut self.mutations);
        let mut layout = Vec::new();
        std::mem::swap(&mut layout, &mut self.layout);
        Some(WorkerOutputMessage::RenderBatch { protocol_version: ProtocolVersion::V1, mutations, layout })
    }
}

/// What the dev server does in answer to a client message: a message to the worker or to
/// the client.
#[derive(Clone, Debug, PartialEq)]
pub enum DevOutput {
    ToWorker(WorkerControlMessage),
    ToClient(ServerMessage),
}

/// The dev server's answer to `message` when the worker is or is not running, and the host
/// metrics it keeps: a greeting or a resize sets the host; with a worker running the new
/// metrics are passed on, and a greeting also resets the client's tree and asks the worker
/// for a full resync; an event goes to a running worker; a ping asks nothing.
pub open spec fn client_outputs(message: ClientMessage, worker_running: bool) -> Seq<DevOutput> {
    match message {
        ClientMessage::Hello { app_id, host } => if worker_running {
            seq![
                DevOutput::ToWorker(WorkerControlMessage::SetHostMetrics { host }),
                DevOutput::ToClient(ServerMessage::ResetUi),
                DevOutput::ToWorker(WorkerControlMessage::RequestFullResync),
            ]
        } else {
            Seq::empty()
        },
        ClientMessage::HostResized { host } => if worker_running {
            seq![DevOutput::ToWorker(WorkerControlMessage::SetHostMetrics { host })]
        } else {
            Seq::empty()
        },
        ClientMessage::UiEvent(e) => if worker_running {
            seq![DevOutput::ToWorker(WorkerControlMessage::UiEvent(e))]
        } else {
            Seq::empty()
        },
        ClientMessage::Ping => Seq::empty(),
    }
}

/// Handles a client message: updates the kept host metrics and returns what to send.
pub fn handle_client_message(host: &mut HostMetrics, message: ClientMessage, worker_running: bool) -> (r: Vec<
    DevOutput,
>)
    ensures
        r@ == client_outputs(message, worker_running),
        *final(host) == match message {
            ClientMessage::Hello { host: h, .. } => h,
            ClientMessage::HostResized { host: h } => h,
            _ => *old(host),
        },
{
    let ghost m = message;
    let mut out: Vec<DevOutput> = Vec::new();
    match message {
        ClientMessage::Hello { app_id, host: h } => {
            *host = h;
            if worker_running {
                out.push(DevOutput::ToWorker(worker_control_from_host(h)));
                out.push(DevOutput::ToClient(ServerMessage::ResetUi));
                out.push(DevOutput::ToWorker(WorkerControlMessage::RequestFullResync));
            }
        },
        ClientMessage::HostResized { host: h } => {
            *host = h;
            if worker_running {
                out.push(DevOutput::ToWorker(worker_control_from_host(h)));
            }
        },
        ClientMessage::UiEvent(e) => {
            if worker_running {
                out.push(DevOutput::ToWorker(WorkerControlMessage::UiEvent(e)));
            }
        },
        ClientMessage::Ping => {},
    }
    proof {
        assert(out@ =~= client_outputs(m, worker_running));
    }
    out
}

/// The preview renderer of the dev client: a backend that the server's batches go to.
pub struct DevRenderer<B> {
    pub backend: B,
}

impl<B: Backend + Default> DevRenderer<B> {
    /// A renderer over a fresh backend.
    pub fn new() -> (r: Self)
        ensures
            call_ensures(B::default, (), r.backend),
    {
        DevRenderer { backend: B::default() }
    }

    /// Starts over with a fresh backend.
    pub fn reset(&mut self)
        ensures
            call_ensures(B::default, (), final(self).backend),
    {
        self.backend = B::default();
    }

    /// Applies a server message: a reset starts over, a batch goes to the backend
    /// (mutations, then layout, then flush, stopping at the first refusal); the other
    /// messages change nothing. Returns whether the backend took all of it.
    pub fn apply_server_message(&mut self, message: &ServerMessage) -> (r: bool)
        ensures
            !(message is RenderBatch) ==> r,
            message is ResetUi ==> call_ensures(B::default, (), final(self).backend),
            message matches ServerMessage::RenderBatch { mutations, layout, .. } ==> exists|
                b: &mut B,
                ms: &[Mutation],
                applied: Result<(), BackendError>,
            |
                mut_ref_current(b) == old(self).backend && ms@ == mutations@
                    && #[trigger] call_ensures(B::apply_mutations, (b, ms), applied)
                    && (applied is Err ==> !r && mut_ref_future(b) == final(self).backend)
                    && (applied is Ok ==> exists|
                    c: &mut B,
                    ls: &[LayoutFrame],
                    laid: Result<(), BackendError>,
                |
                    mut_ref_current(c) == mut_ref_future(b) && ls@ == layout@
                        && #[trigger] call_ensures(B::apply_layout, (c, ls), laid)
                        && (laid is Err ==> !r && mut_ref_future(c) == final(self).backend)
                        && (laid is Ok ==> exists|d: &mut B, flushed: Result<(), BackendError>|
                        mut_ref_current(d) == mut_ref_future(c)
                            && mut_ref_future(d) == final(self).backend
                            && #[trigger] call_ensures(B::flush, (d,), flushed)
                            && r == flushed is Ok)),
            (message is Reloading || message is BuildFailed || message is HelloAck) ==> *final(self)
                == *old(self),
    {
        match message {
            ServerMessage::ResetUi => {
                self.reset();
                true
            },
            ServerMessage::RenderBatch { mutations, layout, .. } => {
                let applied = self.backend.apply_mutations(mutations.as_slice());
                if applied.is_err() {
                    return false;
                }
                let laid = self.backend.apply_layout(layout.as_slice());
                if laid.is_err() {
                    return false;
                }
                let flushed = self.backend.flush();
                flushed.is_ok()
            },
            _ => true,
        }
    }
}

/// The dev server's command line: the app to run, and where to listen.
#[derive(Clone, Debug, PartialEq)]
pub struct DevArgs {
    pub app_id: String,
    pub bind_host: String,
    pub port: u16,
}

/// The value of a decimal digit character.
pub open spec fn digit_value(c: char) -> int {
    c as int - '0' as int
}

/// The value of the decimal digits `s`.
pub open spec fn decimal_value(s: Seq<char>) -> int
    decreases s.len(),
{
    if s.len() == 0 {
        0
    } else {
        decimal_value(s.drop_last()) * 10 + digit_value(s.last())
    }
}

/// Every character of `s` is an ASCII digit.
pub open spec fn digits_only(s: Seq<char>) -> bool {
    forall|i: int| 0 <= i < s.len() ==> '0' <= #[trigger] s[i] <= '9'
}

/// `s` is a non-empty run of ASCII digits.
pub open spec fn all_digits(s: Seq<char>) -> bool {
    s.len() > 0 && digits_only(s)
}

/// How std reads a `u16`: an optional `+`, then one or more digits whose value fits.
pub open spec fn parsed_u16(s: Seq<char>) -> Option<u16> {
    let digits = if s.len() > 0 && s[0] == '+' {
        s.drop_first()
    } else {
        s
    };
    if all_digits(digits) && decimal_value(digits) <= u16::MAX {
        Some(decimal_value(digits) as u16)
    } else {
        None
    }
}

proof fn lemma_decimal_nonneg(s: Seq<char>)
    requires
        digits_only(s),
    ensures
        decimal_value(s) >= 0,
    decreases s.len(),
{
    if s.len() > 0 {
        lemma_decimal_nonneg(s.drop_last());
    }
}

proof fn lemma_decimal_push(s: Seq<char>, c: char)
    requires
        digits_only(s),
        '0' <= c <= '9',
    ensures
        decimal_value(s.push(c)) == decimal_value(s) * 10 + digit_value(c),
        decimal_value(s.push(c)) >= decimal_value(s),
        digits_only(s.push(c)),
{
    assert(s.push(c).drop_last() =~= s);
    lemma_decimal_nonneg(s);
}

/// Appending digits never lowers the value of digits.
proof fn lemma_prefix_bound(a: Seq<char>, b: Seq<char>)
    requires
        digits_only(a),
        digits_only(b),
    ensures
        decimal_value(a + b) >= decimal_value(a),
    decreases b.len(),
{
    if b.len() == 0 {
        assert(a + b =~= a);
    } else {
        lemma_prefix_bound(a, b.drop_last());
        assert((a + b).drop_last() =~= a + b.drop_last());
        assert(a + b =~= (a + b.drop_last()).push(b.last()));
        assert(digits_only(a + b.drop_last()));
        lemma_decimal_push(a + b.drop_last(), b.last());
    }
}

/// Reads a port number as std's `u16` parsing does.
pub fn parse_port(text: &str) -> (r: Option<u16>)
    ensures
        r == parsed_u16(text@),
{
    let n = text.unicode_len();
    let mut i: usize = 0;
    if n > 0 && text.get_char(0) == '+' {
        i = 1;
    }
    let start = i;
    let ghost digits = text@.subrange(start as int, n as int);
    proof {
        if n > 0 && text@[0] == '+' {
            assert(digits =~= text@.drop_first());
        } else {
            assert(digits =~= text@);
        }
    }
    if i >= n {
        return None;
    }
    let mut value: u32 = 0;
    while i < n
        invariant
            start <= i <= n,
            n == text@.len(),
            start < n,
            digits == text@.subrange(start as int, n as int),
            parsed_u16(text@) == (if all_digits(digits) && decimal_value(digits) <= u16::MAX {
                Some(decimal_value(digits) as u16)
            } else {
                None
            }),
            digits_only(text@.subrange(start as int, i as int)),
            value == decimal_value(text@.subrange(start as int, i as int)),
            value <= u16::MAX,
        decreases n - i,
    {
        let c = text.get_char(i);
        if c < '0' || c > '9' {
            proof {
                assert(digits[i - start] == c);
                assert(!all_digits(digits));
            }
            return None;
        }
        let ghost prefix = text@.subrange(start as int, i as int);
        proof {
            assert(text@.subrange(start as int, i + 1) =~= prefix.push(c));
            lemma_decimal_push(prefix, c);
        }
        let d = (c as u32) - ('0' as u32);
        let next = value * 10 + d;
        if next > 65535 {
            proof {
                let rest = text@.subrange(i + 1, n as int);
                assert(digits =~= prefix.push(c) + rest);
                if digits_only(rest) {
                    lemma_prefix_bound(prefix.push(c), rest);
                } else {
                    let k = choose|k: int| 0 <= k < rest.len() && !('0' <= #[trigger] rest[k] <= '9');
                    assert(digits[i + 1 - start + k] == rest[k]);
                }
            }
            return None;
        }
        value = next;
        i = i + 1;
    }
    proof {
        assert(text@.subrange(start as int, n as int) =~= digits);
    }
    Some(value as u16)
}

/// The views of `args`.
pub open spec fn arg_views(args: Seq<String>) -> Seq<Seq<char>> {
    Seq::new(args.len(), |j: int| args[j]@)
}

/// Reads the dev server's arguments from `args` on, given what the earlier ones set: the
/// app after `--app` (unset when the flag ends the list), the host after `--host` (kept
/// when the flag ends the list), the port after `--port`; an error for a missing or invalid
/// port or an unknown argument.
pub open spec fn scan_args(args: Seq<Seq<char>>, app: Option<Seq<char>>, host: Seq<char>, port: u16) -> Result<
    (Option<Seq<char>>, Seq<char>, u16),
    Seq<char>,
>
    decreases args.len(),
{
    if args.len() == 0 {
        Ok((app, host, port))
    } else {
        let a = args[0];
        let rest = args.drop_first();
        if a == "--app"@ {
            if rest.len() > 0 {
                scan_args(rest.drop_first(), Some(rest[0]), host, port)
            } else {
                scan_args(rest, None, host, port)
            }
        } else if a == "--host"@ {
            if rest.len() > 0 {
                scan_args(rest.drop_first(), app, rest[0], port)
            } else {
                scan_args(rest, app, host, port)
            }
        } else if a == "--port"@ {
            if rest.len() == 0 {
                Err("missing value after --port"@)
            } else {
                match parsed_u16(rest[0]) {
                    Some(p) => scan_args(rest.drop_first(), app, host, p),
                    None => Err("invalid --port value"@),
                }
            }
        } else {
            Err("unknown argument: "@ + a)
        }
    }
}

/// The outcome of reading the dev server's arguments: by default on `127.0.0.1`, port
/// 4488; an app is required.
pub open spec fn dev_args_outcome(args: Seq<Seq<char>>) -> Result<(Seq<char>, Seq<char>, u16), Seq<char>> {
    match scan_args(args, None, "127.0.0.1"@, 4488) {
        Ok((Some(app), host, port)) => Ok((app, host, port)),
        Ok((None, _, _)) => Err("usage: cargo run -p dev_cli -- --app counter"@),
        Err(e) => Err(e),
    }
}

/// Whether `arg` is the flag `flag`.
fn is_flag(arg: &String, flag: &str) -> (r: bool)
    ensures
        r == (arg@ == flag@),
{
    let f = String::from_str(flag);
    *arg == f
}

/// Reads the dev server's arguments (the program name left out).
pub fn parse_dev_args(args: &[String]) -> (r: Result<DevArgs, String>)
    ensures
        match r {
            Ok(d) => dev_args_outcome(arg_views(args@)) == Ok::<(Seq<char>, Seq<char>, u16), Seq<char>>(
                (d.app_id@, d.bind_host@, d.port),
            ),
            Err(e) => dev_args_outcome(arg_views(args@)) == Err::<(Seq<char>, Seq<char>, u16), Seq<char>>(e@),
        },
{
    proof {
        reveal_strlit("--app");
        reveal_strlit("--host");
        reveal_strlit("--port");
        reveal_strlit("127.0.0.1");
        reveal_strlit("missing value after --port");
        reveal_strlit("invalid --port value");
        reveal_strlit("unknown argument: ");
        reveal_strlit("usage: cargo run -p dev_cli -- --app counter");
    }
    let ghost all = arg_views(args@);
    let mut app: Option<String> = None;
    let mut host = String::from_str("127.0.0.1");
    let mut port: u16 = 4488;
    let mut i: usize = 0;
    proof {
        assert(all.subrange(0, all.len() as int) =~= all);
    }
    while i < args.len()
        invariant
            i <= args@.len(),
            all == arg_views(args@),
            scan_args(all, None, "127.0.0.1"@, 4488) == scan_args(
                all.subrange(i as int, all.len() as int),
                match app {
                    Some(a) => Some(a@),
                    None => None,
                },
                host@,
                port,
            ),
        decreases args@.len() - i,
    {
        let ghost rest_before = all.subrange(i as int, all.len() as int);
        proof {
            assert(rest_before[0] == args@[i as int]@);
            assert(rest_before.drop_first() =~= all.subrange(i + 1, all.len() as int));
        }
        let arg = &args[i];
        if is_flag(arg, "--app") {
            if i + 1 < args.len() {
                app = Some(args[i + 1].clone());
                proof {
                    assert(all.subrange(i + 1, all.len() as int)[0] == args@[i + 1]@);
                    assert(all.subrange(i + 1, all.len() as int).drop_first() =~= all.subrange(i + 2, all.len() as int));
                }
                i = i + 2;
            } else {
                app = None;
                i = i + 1;
            }
        } else if is_flag(arg, "--host") {
            if i + 1 < args.len() {
                host = args[i + 1].clone();
                proof {
                    assert(all.subrange(i + 1, all.len() as int)[0] == args@[i + 1]@);
                    assert(all.subrange(i + 1, all.len() as int).drop_first() =~= all.subrange(i + 2, all.len() as int));
                }
                i = i + 2;
            } else {
                i = i + 1;
            }
        } else if is_flag(arg, "--port") {
            if i + 1 >= args.len() {
                return Err(String::from_str("missing value after --port"));
            }
            proof {
                assert(all.subrange(i + 1, all.len() as int)[0] == args@[i + 1]@);
                assert(all.subrange(i + 1, all.len() as int).drop_first() =~= all.subrange(i + 2, all.len() as int));
            }
            match parse_port(args[i + 1].as_str()) {
                Some(p) => {
                    port = p;
                    i = i + 2;
                },
                None => {
                    return Err(String::from_str("invalid --port value"));
                },
            }
        } else {
            let mut msg = String::from_str("unknown argument: ");
            msg.append(arg.as_str());
            return Err(msg);
        }
    }
    proof {
        assert(all.subrange(i as int, all.len() as int) =~= Seq::<Seq<char>>::empty());
    }
    match app {
        Some(app_id) => Ok(DevArgs { app_id, bind_host: host, port }),
        None => Err(String::from_str("usage: cargo run -p dev_cli -- --app counter")),
    }
}

/// Whether the watcher skips a directory entry of this name: build output under `target`.
pub fn is_skipped_entry(name: &str) -> (r: bool)
    ensures
        r == (name@ == "target"@),
{
    let n = String::from_str(name);
    n == String::from_str("target")
}

/// Whether the watcher tracks a file with this extension: Rust, TOML, Swift and C header
/// sources.
pub fn is_watched_extension(extension: &str) -> (r: bool)
    ensures
        r == (extension@ == "rs"@ || extension@ == "toml"@ || extension@ == "swift"@ || extension@
            == "h"@),
{
    let e = String::from_str(extension);
    e == String::from_str("rs") || e == String::from_str("toml") || e == String::from_str("swift")
        || e == String::from_str("h")
}

} // verus!
