use mf_ui::backend::{Backend, BackendError};
use mf_ui::dev::{
    handle_client_message, is_skipped_entry, is_watched_extension, parse_dev_args, parse_port,
    worker_control_from_host, ClientMessage, DevArgs, DevOutput, DevRenderer, HostMetrics, PendingBatch,
    ServerMessage, WorkerControlMessage, WorkerInbox, WorkerOutputMessage,
};
use mf_ui::events::UiEvent;
use mf_ui::float32::Fp32;
use mf_ui::layout::{EdgeInsets, LayoutFrame};
use mf_ui::mutation::{ElementKind, Mutation, PropKey, PropValue, ProtocolVersion};

fn f(x: f32) -> Fp32 {
    Fp32::from_bits(x.to_bits())
}

fn host(w: f32, h: f32) -> HostMetrics {
    HostMetrics::new(f(w), f(h), EdgeInsets::all(f(0.0)))
}

fn args(list: &[&str]) -> Vec<String> {
    list.iter().map(|s| s.to_string()).collect()
}

#[test]
fn ports_parse_like_std() {
    for text in ["0", "4488", "+80", "65535", "007", "", "+", "-1", "65536", "12a", " 1", "99999999999"] {
        assert_eq!(parse_port(text), text.parse::<u16>().ok(), "{text:?}");
    }
}

#[test]
fn dev_args_default_to_localhost_4488() {
    assert_eq!(
        parse_dev_args(&args(&["--app", "counter"])),
        Ok(DevArgs { app_id: "counter".to_string(), bind_host: "127.0.0.1".to_string(), port: 4488 })
    );
    assert_eq!(
        parse_dev_args(&args(&["--host", "0.0.0.0", "--port", "9000", "--app", "album_list"])),
        Ok(DevArgs { app_id: "album_list".to_string(), bind_host: "0.0.0.0".to_string(), port: 9000 })
    );
}

#[test]
fn dev_args_errors_name_the_problem() {
    assert_eq!(
        parse_dev_args(&args(&[])),
        Err("usage: cargo run -p dev_cli -- --app counter".to_string())
    );
    assert_eq!(parse_dev_args(&args(&["--app", "x", "--port"])), Err("missing value after --port".to_string()));
    assert_eq!(parse_dev_args(&args(&["--app", "x", "--port", "http"])), Err("invalid --port value".to_string()));
    assert_eq!(parse_dev_args(&args(&["--verbose"])), Err("unknown argument: --verbose".to_string()));
    assert_eq!(
        parse_dev_args(&args(&["--app", "x", "--app"])),
        Err("usage: cargo run -p dev_cli -- --app counter".to_string())
    );
    assert_eq!(
        parse_dev_args(&args(&["--app", "x", "--host"])),
        Ok(DevArgs { app_id: "x".to_string(), bind_host: "127.0.0.1".to_string(), port: 4488 })
    );
}

#[test]
fn worker_inbox_records_control_messages() {
    let mut inbox = WorkerInbox::new();
    assert!(inbox.receive(worker_control_from_host(host(320.0, 480.0))));
    assert!(inbox.receive(WorkerControlMessage::UiEvent(UiEvent::Tap { id: 4 })));
    assert!(inbox.receive(WorkerControlMessage::RequestRepaint));
    assert!(inbox.receive(WorkerControlMessage::RequestFullResync));
    assert_eq!(inbox.take_pending_host(), Some(host(320.0, 480.0)));
    assert_eq!(inbox.take_pending_host(), None);
    assert!(inbox.take_repaint());
    assert!(!inbox.take_repaint());
    assert!(inbox.take_full_resync());
    assert!(!inbox.take_full_resync());
    assert_eq!(inbox.take_events(), vec![UiEvent::Tap { id: 4 }]);
    assert!(!inbox.is_shutdown());
    assert!(!inbox.receive(WorkerControlMessage::Shutdown));
    assert!(inbox.is_shutdown());

    let mut failed = WorkerInbox::new();
    failed.read_failed();
    assert!(failed.is_shutdown());
}

#[test]
fn pending_batches_flush_once_and_only_when_non_empty() {
    let mut pending = PendingBatch::new();
    assert_eq!(pending.take_batch(), None);
    let m = Mutation::CreateNode { id: 1, kind: ElementKind::Stack };
    let frame = LayoutFrame { id: 1, x: f(0.0), y: f(0.0), width: f(1.0), height: f(1.0) };
    pending.add_mutations(&[m.clone()]);
    pending.add_mutations(&[Mutation::SetProp { id: 1, key: PropKey::Enabled, value: PropValue::Bool(true) }]);
    pending.add_layout(&[frame]);
    assert_eq!(
        pending.take_batch(),
        Some(WorkerOutputMessage::RenderBatch {
            protocol_version: ProtocolVersion::V1,
            mutations: vec![m, Mutation::SetProp { id: 1, key: PropKey::Enabled, value: PropValue::Bool(true) }],
            layout: vec![frame],
        })
    );
    assert_eq!(pending.take_batch(), None);
}

#[test]
fn client_greeting_resets_and_resyncs_a_running_worker() {
    let mut kept = host(1.0, 1.0);
    let out = handle_client_message(
        &mut kept,
        ClientMessage::Hello { app_id: "counter".to_string(), host: host(390.0, 844.0) },
        true,
    );
    assert_eq!(kept, host(390.0, 844.0));
    assert_eq!(
        out,
        vec![
            DevOutput::ToWorker(WorkerControlMessage::SetHostMetrics { host: host(390.0, 844.0) }),
            DevOutput::ToClient(ServerMessage::ResetUi),
            DevOutput::ToWorker(WorkerControlMessage::RequestFullResync),
        ]
    );
    let out = handle_client_message(&mut kept, ClientMessage::HostResized { host: host(10.0, 20.0) }, false);
    assert_eq!(kept, host(10.0, 20.0));
    assert!(out.is_empty());
    let out = handle_client_message(&mut kept, ClientMessage::UiEvent(UiEvent::Tap { id: 2 }), true);
    assert_eq!(out, vec![DevOutput::ToWorker(WorkerControlMessage::UiEvent(UiEvent::Tap { id: 2 }))]);
    assert!(handle_client_message(&mut kept, ClientMessage::Ping, true).is_empty());
    assert_eq!(kept, host(10.0, 20.0));
}

#[derive(Default)]
struct CountingBackend {
    batches: usize,
    refuse: bool,
}

impl Backend for CountingBackend {
    fn apply_mutations(&mut self, _mutations: &[Mutation]) -> Result<(), BackendError> {
        if self.refuse {
            return Err(BackendError::BatchRejected("no".to_string()));
        }
        Ok(())
    }
    fn apply_layout(&mut self, _frames: &[LayoutFrame]) -> Result<(), BackendError> {
        Ok(())
    }
    fn flush(&mut self) -> Result<(), BackendError> {
        self.batches += 1;
        Ok(())
    }
}

#[test]
fn dev_renderer_applies_batches_and_resets() {
    let mut renderer: DevRenderer<CountingBackend> = DevRenderer::new();
    let batch = ServerMessage::RenderBatch { protocol_version: ProtocolVersion::V1, mutations: Vec::new(), layout: Vec::new() };
    assert!(renderer.apply_server_message(&batch));
    assert_eq!(renderer.backend.batches, 1);
    assert!(renderer.apply_server_message(&ServerMessage::Reloading));
    assert!(renderer.apply_server_message(&ServerMessage::BuildFailed { message: "e".to_string() }));
    assert_eq!(renderer.backend.batches, 1);
    renderer.backend.refuse = true;
    assert!(!renderer.apply_server_message(&batch));
    assert!(renderer.apply_server_message(&ServerMessage::ResetUi));
    assert_eq!(renderer.backend.batches, 0);
    assert!(!renderer.backend.refuse);
}

#[test]
fn the_watcher_tracks_sources_outside_target() {
    assert!(is_skipped_entry("target"));
    assert!(!is_skipped_entry("src"));
    for ext in ["rs", "toml", "swift", "h"] {
        assert!(is_watched_extension(ext));
    }
    assert!(!is_watched_extension("md"));
}
