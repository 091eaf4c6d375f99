//! The runtime: windows, event sources, frames, overlays, assembly, jobs, mailboxes and logs.

use lxlake::capability::webview::{
    admit_overlay, capabilities, native_capabilities, validate, Capabilities, Mode, OverlayId,
    OverlaySpec, OverlayState, SandboxPolicy, WebViewConfig, WebViewError, WebViewSource,
};
use lxlake::contract::error::Error;
use lxlake::contract::event::{Event, RawEvent};
use lxlake::contract::geometry::PhysicalSize;
use lxlake::contract::input::{translate_key, Key, KeyCode, MouseButton};
use lxlake::contract::widget::{Anchor, UiId, Widget};
use lxlake::contract::window::{WindowId, WindowLabel};
use lxlake::runtime::assembly::Assembly;
use lxlake::runtime::clock::FrameClock;
use lxlake::runtime::context::AppContext;
use lxlake::runtime::driver::{next_wake, Driver, Flow, Reaction, Resume};
use lxlake::runtime::exec::{AsyncConfig, Mailbox};
use lxlake::runtime::forward::{forward_window_event, Forward};
use lxlake::runtime::jobs::{
    default_workers, probe_queue, settle_probe, wakes_on_completion, JobHandle, Probe, Queue, Stage, Step, TaskHunt,
    TaskQueues,
};
use lxlake::runtime::log::{FileSink, LogConfig, LogError, Rotation, DEFAULT_FILE_NAME};
use lxlake::runtime::overlays::{OverlayKey, OverlayTable};
use lxlake::runtime::pump::{EventSource, NoWakeup, PumpContext, Wakeup};
use lxlake::runtime::window::WindowRegistry;
use std::sync::atomic::{AtomicUsize, Ordering};
use std::sync::Arc;

const MILLI: u64 = 1_000_000;

#[derive(Default)]
struct CountingWakeup(AtomicUsize);

impl Wakeup for CountingWakeup {
    fn wake(&self) {
        self.0.fetch_add(1, Ordering::SeqCst);
    }
}

#[derive(Default)]
struct Log {
    pumps: AtomicUsize,
    wakes: AtomicUsize,
}

struct FakeSource {
    deadline: Option<u64>,
    produces: bool,
    log: Arc<Log>,
}

impl EventSource for FakeSource {
    fn next_deadline(&self) -> Option<u64> {
        self.deadline
    }

    fn pump(&mut self, cx: &mut PumpContext<'_>) -> bool {
        self.log.pumps.fetch_add(1, Ordering::SeqCst);
        if self.produces {
            self.log.wakes.fetch_add(1, Ordering::SeqCst);
            cx.wake();
        }
        self.produces
    }
}

fn source_at(deadline: Option<u64>, produces: bool) -> (Box<dyn EventSource>, Arc<Log>) {
    let log = Arc::new(Log::default());
    (Box::new(FakeSource { deadline, produces, log: Arc::clone(&log) }), log)
}

type Context = AppContext<u64, CountingWakeup>;

fn context() -> (Context, Arc<CountingWakeup>) {
    let wakeup = Arc::new(CountingWakeup::default());
    let mut cx = AppContext::new();
    cx.set_wakeup(Arc::clone(&wakeup));
    (cx, wakeup)
}

// Event sources.

#[test]
fn without_sources_there_is_no_deadline() {
    let (cx, _) = context();
    assert_eq!(cx.next_source_deadline(), None);
    assert!(!cx.source_due(17));
}

#[test]
fn only_the_earliest_deadline_matters() {
    let (mut cx, _) = context();
    let now = 1_000 * MILLI;
    cx.register_event_source(source_at(Some(now + 10 * MILLI), false).0);
    cx.register_event_source(source_at(Some(now + 30 * MILLI), false).0);
    cx.register_event_source(source_at(None, false).0);

    assert_eq!(cx.next_source_deadline(), Some(now + 10 * MILLI));
}

#[test]
fn a_source_is_due_at_or_after_its_deadline() {
    let now = 1_000 * MILLI;
    let due = now + 10 * MILLI;
    let (mut cx, _) = context();
    cx.register_event_source(source_at(Some(due), false).0);

    assert!(!cx.source_due(now));
    assert!(!cx.source_due(due - MILLI));
    assert!(cx.source_due(due));
    assert!(cx.source_due(due + 5 * MILLI));
}

#[test]
fn one_due_source_pumps_every_source() {
    let now = 1_000 * MILLI;
    let (fast, fast_log) = source_at(Some(now), false);
    let (slow, slow_log) = source_at(Some(now + 20 * MILLI), false);
    let (mut cx, _) = context();
    cx.register_event_source(fast);
    cx.register_event_source(slow);

    cx.pump_sources(now);

    assert_eq!(fast_log.pumps.load(Ordering::SeqCst), 1);
    assert_eq!(slow_log.pumps.load(Ordering::SeqCst), 1);
}

#[test]
fn pump_reports_whether_anything_was_produced() {
    let now = 1_000 * MILLI;
    let (quiet, quiet_log) = source_at(Some(now), false);
    let (loud, loud_log) = source_at(Some(now), true);
    let (mut cx, wakeup) = context();
    cx.register_event_source(quiet);
    cx.register_event_source(loud);

    assert!(cx.pump_sources(now));
    assert_eq!(quiet_log.wakes.load(Ordering::SeqCst), 0);
    assert_eq!(loud_log.wakes.load(Ordering::SeqCst), 1);
    assert_eq!(wakeup.0.load(Ordering::SeqCst), 1);
}

#[test]
fn a_quiet_batch_does_not_ask_for_a_frame() {
    let (mut cx, _) = context();
    cx.register_event_source(source_at(Some(5), false).0);

    assert!(!cx.pump_sources(5));
}

#[test]
fn pumping_before_the_wakeup_is_injected_is_harmless() {
    let mut cx: Context = AppContext::new();
    cx.register_event_source(source_at(Some(5), true).0);

    assert!(cx.pump_sources(5));
}

#[test]
fn leaving_is_asked_for_once() {
    let mut cx: AppContext<u64, NoWakeup> = AppContext::new();
    assert!(!cx.exit_requested());
    cx.exit();
    assert!(cx.exit_requested());
    assert!(cx.take_exit_requested());
    assert!(!cx.take_exit_requested());
}

// Windows.

fn registry_with_two() -> WindowRegistry<u64> {
    let mut registry = WindowRegistry::new();
    registry.insert(WindowId(0), &WindowLabel::new(WindowLabel::MAIN), 0);
    registry.insert(WindowId(1), &WindowLabel::new("inspector"), 1);
    registry
}

#[test]
fn both_tables_point_at_the_same_window() {
    let registry = registry_with_two();

    let by_label = registry.by_label("inspector").unwrap();
    let by_id = registry.by_id(WindowId(1)).unwrap();

    assert_eq!(by_label.id(), by_id.id());
    assert_eq!(by_label.label().as_str(), "inspector");
    assert_eq!(*by_label.handle(), 1);
    assert_eq!(registry.len(), 2);
}

#[test]
fn the_main_window_is_the_one_labelled_main() {
    let registry = registry_with_two();

    let main = registry.main().unwrap();
    assert_eq!(main.id(), WindowId(0));
    assert!(main.label().is_main());
    assert_eq!(
        registry.by_label(WindowLabel::MAIN).map(|window| window.id()),
        Some(WindowId(0))
    );
}

#[test]
fn iterating_is_ordered_by_creation() {
    let registry = registry_with_two();
    let ids: Vec<u64> = registry.list().iter().map(|window| window.id().0).collect();

    assert_eq!(ids, vec![0, 1]);
}

#[test]
fn removing_drops_both_keys() {
    let mut registry = registry_with_two();

    let removed = registry.remove(WindowId(1)).unwrap();
    assert_eq!(removed.label().as_str(), "inspector");
    assert!(registry.by_label("inspector").is_none());
    assert!(registry.by_id(WindowId(1)).is_none());
    assert_eq!(registry.len(), 1);

    assert!(registry.remove(WindowId(1)).is_none());
}

#[test]
fn removing_the_main_window_clears_the_main_slot() {
    let mut registry = registry_with_two();

    registry.remove(WindowId(0));

    assert!(registry.main().is_none());
    assert!(registry.by_label(WindowLabel::MAIN).is_none());
    assert!(!registry.is_empty());
}

#[test]
fn clearing_leaves_an_empty_registry() {
    let mut registry = registry_with_two();

    registry.clear();

    assert!(registry.is_empty());
    assert_eq!(registry.len(), 0);
    assert!(registry.main().is_none());
    assert!(registry.list().is_empty());
}

// Frames.

#[test]
fn frames_keep_their_beat_and_make_up_for_nothing() {
    let mut clock = FrameClock::new(Some(10), 100);
    assert!(clock.is_due(100));
    assert_eq!(clock.next_due(), Some(100));
    let first = clock.advance(103);
    assert_eq!((first.index, first.delta, first.elapsed), (0, 3, 3));
    assert_eq!(clock.next_due(), Some(110));
    let second = clock.advance(112);
    assert_eq!((second.index, second.delta, second.elapsed), (1, 9, 12));
    assert_eq!(clock.next_due(), Some(120));
    clock.advance(500);
    assert_eq!(clock.next_due(), Some(510));

    let unpaced = FrameClock::new(None, 0);
    assert_eq!(unpaced.next_due(), None);
    assert!(unpaced.is_due(0));
}

// The driver.

fn driver() -> Driver<u64, NoWakeup> {
    Driver::new(AppContext::new(), Some(16 * MILLI), 0)
}

#[test]
fn starting_up_happens_once_and_windows_whenever_there_is_none() {
    let mut driver = driver();
    assert_eq!(driver.resumed(), Resume { startup: true, create_windows: true });
    let id = driver.window_created(77, &WindowLabel::new("main"), 5);
    assert_eq!(id, WindowId(0));
    assert_eq!(driver.next_id(), WindowId(1));
    assert_eq!(driver.resumed(), Resume { startup: false, create_windows: false });
    assert_eq!(driver.suspended(), vec![WindowId(0)]);
    driver.forget_window(id);
    assert_eq!(*driver.remove_window(id).unwrap().handle(), 5);
    assert_eq!(driver.resumed(), Resume { startup: false, create_windows: true });
}

#[test]
fn reports_are_translated_for_the_window_they_are_about() {
    let mut driver = driver();
    driver.resumed();
    let id = driver.window_created(77, &WindowLabel::new("main"), 5);
    let size = PhysicalSize { width: 8, height: 6 };

    assert_eq!(driver.window_event::<i32>(3, RawEvent::Resized(size)), Reaction::Ignore);
    assert_eq!(
        driver.window_event::<i32>(77, RawEvent::Resized(size)),
        Reaction::Emit(Event::Resized { window: id, size })
    );
    assert_eq!(
        driver.window_event(77, RawEvent::ScaleFactorChanged { scale_factor: 2, size: None }),
        Reaction::Emit(Event::ScaleFactorChanged {
            window: id,
            scale_factor: 2,
            size: PhysicalSize { width: 0, height: 0 }
        })
    );
    assert_eq!(
        driver.window_event::<i32>(
            77,
            RawEvent::Keyboard { key: Some(Key::Tab), pressed: true, repeat: true }
        ),
        Reaction::Emit(Event::KeyboardInput {
            window: id,
            key: Key::Tab,
            pressed: true,
            repeat: true
        })
    );
    assert_eq!(
        driver.window_event::<i32>(
            77,
            RawEvent::Keyboard { key: None, pressed: true, repeat: false }
        ),
        Reaction::Ignore
    );
    assert_eq!(
        driver.window_event::<i32>(
            77,
            RawEvent::MouseInput { button: Some(MouseButton::Left), pressed: false }
        ),
        Reaction::Emit(Event::MouseButton {
            window: id,
            button: MouseButton::Left,
            pressed: false
        })
    );
    assert_eq!(
        driver.window_event(77, RawEvent::CursorMoved([1, 2])),
        Reaction::Emit(Event::CursorMoved { window: id, position: [1, 2] })
    );
    assert_eq!(
        driver.window_event::<i32>(77, RawEvent::Focused(true)),
        Reaction::Emit(Event::Focused { window: id, focused: true })
    );
    assert_eq!(
        driver.window_event::<i32>(77, RawEvent::CloseRequested),
        Reaction::Close(id)
    );
    assert!(!driver.exits_after_close());
    driver.forget_window(id);
    driver.remove_window(id);
    assert!(driver.exits_after_close());
    assert_eq!(driver.window_event::<i32>(77, RawEvent::CloseRequested), Reaction::Ignore);
}

#[test]
fn a_frame_comes_when_due_or_when_something_calls_for_it() {
    let mut driver = driver();
    driver.resumed();
    assert_eq!(driver.about_to_wait(0).unwrap().index, 0);
    assert_eq!(driver.schedule(), Flow::WaitUntil(16 * MILLI));
    assert_eq!(driver.about_to_wait(MILLI), None);
    driver.user_event(MILLI);
    assert_eq!(driver.about_to_wait(2 * MILLI).unwrap().index, 1);
    driver.context_mut().exit();
    assert_eq!(driver.schedule(), Flow::Exit);
}

#[test]
fn the_earlier_of_frame_and_source_wakes() {
    assert_eq!(next_wake(None, Some(3)), Flow::Poll);
    assert_eq!(next_wake(Some(5), Some(3)), Flow::WaitUntil(3));
    assert_eq!(next_wake(Some(2), Some(3)), Flow::WaitUntil(2));
    assert_eq!(next_wake(Some(5), None), Flow::WaitUntil(5));
}

#[test]
fn keys_are_translated_or_dropped() {
    assert_eq!(translate_key(KeyCode::KeyW), Some(Key::W));
    assert_eq!(translate_key(KeyCode::ShiftLeft), Some(Key::Shift));
    assert_eq!(translate_key(KeyCode::ShiftRight), Some(Key::Shift));
    assert_eq!(translate_key(KeyCode::ControlRight), Some(Key::Control));
    assert_eq!(translate_key(KeyCode::Escape), Some(Key::Escape));
    assert_eq!(translate_key(KeyCode::Other), None);
}

#[test]
fn size_and_scale_are_forwarded_before_the_application_hears() {
    let size = PhysicalSize { width: 800, height: 600 };
    assert_eq!(
        forward_window_event::<i32>(&Event::Resized { window: WindowId(0), size }),
        Some(Forward { window: WindowId(0), size, scale_factor: None })
    );
    assert_eq!(
        forward_window_event(&Event::ScaleFactorChanged {
            window: WindowId(1),
            scale_factor: 2,
            size
        }),
        Some(Forward { window: WindowId(1), size, scale_factor: Some(2) })
    );
    assert_eq!(
        forward_window_event::<i32>(&Event::Focused { window: WindowId(0), focused: true }),
        None
    );
}

// Overlays.

fn layer() -> OverlaySpec<()> {
    OverlaySpec::new(
        OverlayId(1),
        Widget::new(UiId(1), Anchor::BottomRight, ()),
        WebViewConfig::html("<p>hi</p>"),
    )
}

#[test]
fn overlays_are_booked_per_window_and_id() {
    let key = |window: u64, id: u32| OverlayKey { window: WindowId(window), id: OverlayId(id) };
    let mut table: OverlayTable<&str> = OverlayTable::new();
    table.insert(key(0, 1), "main");
    table.insert(key(1, 1), "inspector");

    assert!(table.get(key(0, 1)).is_some());
    assert_eq!(table.get(key(1, 1)), Some(&"inspector"));
    assert!(table.get(key(0, 2)).is_none());
    assert!(table.get(key(9, 1)).is_none());
    assert_eq!(table.of_window(WindowId(0)), vec![OverlayId(1)]);
    *table.get_mut(key(1, 1)).unwrap() = "moved";
    assert_eq!(table.get(key(1, 1)), Some(&"moved"));

    table.remove_window(WindowId(0));
    assert!(table.get(key(0, 1)).is_none());
    assert!(table.get(key(1, 1)).is_some());

    table.clear();
    assert!(table.of_window(WindowId(1)).is_empty());
}

#[test]
fn mode_support_follows_the_capabilities() {
    let caps = Capabilities { overlay: true, texture: false, sandbox: true, devtools: false };

    assert!(caps.supports(Mode::Overlay));
    assert!(!caps.supports(Mode::Texture));

    let none = Capabilities::none();
    assert!(!none.supports(Mode::Overlay));
    assert!(!none.supports(Mode::Texture));
}

#[test]
fn requiring_sandbox_tracks_the_backend_fail_closed() {
    for offered in [capabilities(), native_capabilities(true)] {
        let required = WebViewConfig::html("<p>hi</p>");
        assert_eq!(validate(&required, offered).is_ok(), offered.sandbox);
        assert!(validate(&required.sandbox(SandboxPolicy::Disabled), offered).is_ok());
    }
}

#[test]
fn an_overlay_spec_lands_on_the_main_window_and_is_marked_as_overlay() {
    let spec = layer();

    assert!(spec.window.is_main());
    assert!(spec.widget.overlay);
    assert_eq!(spec.config.sandbox, SandboxPolicy::Required);

    let moved = spec.window("inspector");
    assert_eq!(moved.window.as_str(), "inspector");
}

#[test]
fn the_fallback_supports_nothing() {
    let caps = capabilities();

    assert!(!caps.overlay);
    assert!(!caps.texture);
    assert!(!caps.sandbox);
    assert!(!caps.devtools);
}

#[test]
fn building_an_overlay_names_the_missing_backend_not_the_config() {
    let config = WebViewConfig::html("<p>hi</p>");
    match admit_overlay(&config, capabilities(), "linux").unwrap_err() {
        WebViewError::Unsupported { platform, mode } => {
            assert_eq!(platform, "linux");
            assert_eq!(mode, Mode::Overlay);
        }
        other => panic!("{}", other.display()),
    }
    let unsandboxed = Capabilities { overlay: true, texture: false, sandbox: false, devtools: true };
    assert_eq!(
        admit_overlay(&config, unsandboxed, "linux"),
        Err(WebViewError::SandboxUnsupported)
    );
}

#[test]
fn the_windows_backend_has_an_overlay_and_a_sandbox() {
    for debug in [true, false] {
        let caps = native_capabilities(debug);
        assert!(caps.overlay);
        assert!(!caps.texture);
        assert!(caps.sandbox);
        assert_eq!(caps.devtools, debug);

        let config = WebViewConfig::html("<p>hi</p>");
        assert_eq!(config.sandbox, SandboxPolicy::Required);
        assert!(validate(&config, caps).is_ok());
    }
}

#[test]
fn a_configuration_is_what_was_asked_for() {
    let config = WebViewConfig::url("https://example.org").transparent(true).devtools(true);
    assert_eq!(config.source, WebViewSource::Url("https://example.org".to_owned()));
    assert!(config.transparent && config.devtools);
    assert_eq!(config.copy(), config);
    assert_eq!(
        WebViewError::Backend("x".to_owned()).display(),
        "webview 后端失败：x"
    );
    assert_eq!(
        WebViewError::Unsupported { platform: "linux", mode: Mode::Texture }.display(),
        "linux 上没有纹理层形态的 webview 后端"
    );
}

#[test]
fn a_closed_view_frees_its_window_once_and_moves_no_more() {
    let mut state = OverlayState::new(1);
    state.moved(2, true);
    state.moved(3, false);
    assert_eq!(state.bounds(), 2);
    assert!(state.accepts_requests());
    assert!(state.close());
    assert!(!state.close());
    state.moved(4, true);
    assert_eq!(state.bounds(), 2);
    assert!(!state.accepts_requests());
}

// Assembly.

type Plan = Assembly<(), ()>;

#[test]
fn the_app_id_is_what_the_assembly_says() {
    assert_eq!(Plan::new().declared_id(), "lxlake");
    assert_eq!(Plan::new().app_id("com.lxlake.demo").declared_id(), "com.lxlake.demo");
}

#[test]
fn windows_are_what_the_application_declares() {
    let plan = Plan::new().main_window(()).create_window("inspector", ());

    let specs = plan.windows();

    assert_eq!(specs.len(), 2);
    assert!(specs[0].label.is_main());
    assert_eq!(specs[1].label.as_str(), "inspector");
}

#[test]
fn the_main_window_comes_first_however_late_it_is_declared() {
    let plan = Plan::new().create_window("inspector", ()).main_window(()).main_window(());
    assert_eq!(plan.windows().len(), 2);
    assert!(plan.windows()[0].label.is_main());
}

#[test]
fn overlay_specs_are_validated_at_assembly_time() {
    let plan = Plan::new().main_window(()).webview(layer()).webview(layer());
    let error = plan.validate_overlays().unwrap_err();
    assert!(error.display().contains("重复"), "{}", error.display());

    let plan = Plan::new().main_window(()).webview(layer().window("ghost"));
    assert!(plan.validate_overlays().is_err());

    let plan = Plan::new()
        .main_window(())
        .create_window("inspector", ())
        .webview(layer())
        .webview(layer().window("inspector"));
    assert!(plan.validate_overlays().is_ok());
    assert_eq!(plan.overlays_of("inspector"), vec![1]);
    assert_eq!(plan.overlays_of("ghost"), Vec::<usize>::new());
}

#[test]
fn overlay_faults_name_the_overlay_and_the_window() {
    let plan = Plan::new().main_window(()).webview(layer().window("ghost"));
    assert_eq!(
        plan.validate_overlays(),
        Err(Error::Config("覆盖层 1 挂在不存在的窗口 `ghost` 上".to_owned()))
    );
    let plan = Plan::new().main_window(()).webview(layer()).webview(layer());
    assert_eq!(
        plan.validate_overlays(),
        Err(Error::Config("窗口 `main` 上的覆盖层 id 重复：1".to_owned()))
    );
    assert_eq!(Error::Config("x".to_owned()).display(), "配置错误：x");
    assert_eq!(Error::Platform("x".to_owned()).display(), "平台错误：x");
}

#[test]
fn labels_are_there_and_unique_and_main_is_reserved() {
    let fine = Plan::new().main_window(()).create_window("a", ()).create_window("b", ());
    assert!(fine.validate_windows().is_ok());
    let twice = Plan::new().main_window(()).create_window("a", ()).create_window("a", ());
    assert_eq!(
        twice.validate_windows(),
        Err(Error::Config("窗口标签重复：`a`".to_owned()))
    );
    let nameless = Plan::new().main_window(()).create_window("", ());
    assert_eq!(
        nameless.validate_windows(),
        Err(Error::Config("窗口标签不能为空".to_owned()))
    );
    let usurper = Plan::new().main_window(()).create_window("main", ());
    assert_eq!(
        usurper.validate_windows(),
        Err(Error::Config("窗口标签 `main` 是保留标签".to_owned()))
    );
}

#[test]
fn frames_are_paced_unless_told_otherwise() {
    assert_eq!(Plan::new().interval(), Some(16_666_666));
    assert_eq!(Plan::new().frame_interval(None).interval(), None);
    assert_eq!(Plan::new().worker_threads(), None);
    assert_eq!(Plan::new().workers(3).worker_threads(), Some(3));
}

// Mailboxes.

#[test]
fn a_mailbox_hands_out_what_was_sent_in_order() {
    let mut mailbox = Mailbox::<u32>::new();
    let counter = Arc::new(CountingWakeup::default());
    let sender = mailbox.sender(Arc::clone(&counter));

    sender.send(&mut mailbox, 1);
    sender.send(&mut mailbox, 2);
    assert_eq!(mailbox.len(), 2);
    assert!(!mailbox.is_empty());

    assert_eq!(mailbox.drain().into_iter().collect::<Vec<_>>(), vec![1, 2]);
    assert!(mailbox.is_empty());
    assert_eq!(mailbox.drain().len(), 0);
    assert_eq!(counter.0.load(Ordering::SeqCst), 2);
}

#[test]
fn a_drained_iterator_does_not_hold_the_mailbox() {
    let mut mailbox = Mailbox::<String>::new();
    let sender = mailbox.sender(Arc::new(NoWakeup));
    sender.send(&mut mailbox, "a".to_owned());

    let drained = mailbox.drain();
    sender.send(&mut mailbox, "b".to_owned());
    assert_eq!(mailbox.len(), 1);

    assert_eq!(drained.into_iter().collect::<Vec<_>>(), vec!["a".to_owned()]);
}

#[test]
fn cloned_senders_share_the_queue() {
    let mut mailbox = Mailbox::<u32>::new();
    let sender = mailbox.sender(Arc::new(NoWakeup));
    let clone = sender.another();

    clone.send(&mut mailbox, 7);
    assert_eq!(mailbox.drain().into_iter().collect::<Vec<_>>(), vec![7]);
}

#[test]
fn the_async_config_has_a_usable_default() {
    let config = AsyncConfig::new();

    assert_eq!(config.thread_name, "lxlake-async");
    assert_eq!(config.worker_threads, 2);
    assert_eq!(AsyncConfig::new().threads(0).worker_threads, 1);
    assert_eq!(AsyncConfig::new().thread_name("io").worker_name(), "io-worker");
}

// Jobs.

fn hunt_down(
    queues: &TaskQueues<u32>,
    own: usize,
    workers: &[crossbeam_deque::Worker<u32>],
) -> Option<u32> {
    let mut hunt = TaskHunt::new(own);
    loop {
        match queues.find_task(&mut hunt, &workers[own]) {
            Step::Found(job) => return Some(job),
            Step::Again => {}
            Step::Nothing => return None,
        }
    }
}

#[test]
fn worker_count_is_at_least_one() {
    assert_eq!(TaskQueues::<u32>::with_workers(0).0.worker_count(), 1);
    assert_eq!(TaskQueues::<u32>::with_workers(4).0.worker_count(), 4);
}

#[test]
fn collects_all_results() {
    let (queues, workers) = TaskQueues::with_workers(4);
    let mut handles: Vec<JobHandle<(u64, u64)>> = (0..64).map(|_| JobHandle::new()).collect();
    for n in 0..64u32 {
        queues.push(n);
    }
    let mut own = 0;
    while let Some(n) = hunt_down(&queues, own, &workers) {
        let sum = (0..1000u64).sum::<u64>() + u64::from(n);
        handles[n as usize].finish((u64::from(n), sum));
        own = (own + 1) % workers.len();
    }

    for (n, handle) in handles.iter_mut().enumerate() {
        let (from_job, sum) = handle.poll().unwrap();
        assert_eq!(from_job, n as u64);
        assert_eq!(sum, (0..1000u64).sum::<u64>() + n as u64);
    }
}

#[test]
fn result_is_taken_once() {
    let mut handle = JobHandle::new();
    assert!(!handle.is_finished());
    handle.finish(7u32);
    assert!(handle.is_finished());
    assert_eq!(handle.poll(), Some(7));
    assert_eq!(handle.poll(), None);
    assert!(!handle.is_finished());
}

#[test]
fn cancel_is_seen_by_job() {
    let handle = std::cell::RefCell::new(JobHandle::new());
    let looks = std::cell::Cell::new(0u32);
    let job = |is_cancelled: &dyn Fn() -> bool| {
        while !is_cancelled() {
            looks.set(looks.get() + 1);
            if looks.get() == 3 {
                handle.borrow_mut().cancel();
            }
        }
        42u32
    };
    let value = job(&|| handle.borrow().context().is_cancelled());
    handle.borrow_mut().finish(value);
    assert_eq!(looks.get(), 3);
    assert_eq!(handle.borrow_mut().poll(), Some(42));
}

#[test]
fn a_stage_names_its_queue() {
    let (queues, workers) = TaskQueues::<u32>::with_workers(2);
    workers[0].push(1);
    queues.push(2);
    workers[1].push(3);
    let asked = |stage| match queues.queue_at(stage, &workers[0]) {
        Queue::Own(own) => own.pop(),
        Queue::Shared(shared) => shared.steal().success(),
        Queue::Other(other) => other.steal().success(),
    };
    assert_eq!(asked(Stage::Shared), Some(2));
    assert_eq!(asked(Stage::Other(1)), Some(3));
    assert_eq!(asked(Stage::Other(0)), Some(1));
    assert_eq!(asked(Stage::Own), None);
    workers[0].push(4);
    assert_eq!(asked(Stage::Own), Some(4));
}

#[test]
fn a_queue_answers_for_itself() {
    let (queues, workers) = TaskQueues::<u32>::with_workers(2);
    let ask = |stage| probe_queue(queues.queue_at(stage, &workers[0]), &workers[0]);
    assert_eq!(ask(Stage::Own), Probe::Empty);
    assert_eq!(ask(Stage::Shared), Probe::Empty);
    queues.push(5);
    workers[1].push(6);
    assert_eq!(ask(Stage::Own), Probe::Empty);
    assert_eq!(ask(Stage::Shared), Probe::Found(5));
    assert_eq!(ask(Stage::Other(1)), Probe::Found(6));
    let mut hunt = TaskHunt::new(0);
    assert_eq!(queues.find_task(&mut hunt, &workers[0]), Step::Again);
    assert_eq!(hunt.stage, Stage::Shared);
}

#[test]
fn repeated_batches_all_complete() {
    let (queues, workers) = TaskQueues::with_workers(4);
    for round in 0..64u32 {
        let mut done = vec![false; 8];
        for n in 0..8u32 {
            queues.push(n);
        }
        let own = round as usize % workers.len();
        while let Some(n) = hunt_down(&queues, own, &workers) {
            done[n as usize] = true;
        }
        assert!(done.iter().all(|done| *done), "round {round}");
    }
}

#[test]
fn wakeup_is_coalesced_per_batch() {
    let (queues, workers) = TaskQueues::with_workers(4);
    let mut handles: Vec<JobHandle<u32>> = (0..32).map(|_| JobHandle::new()).collect();
    for n in 0..32u32 {
        queues.push(n);
    }
    let mut outstanding = handles.len();
    let mut wakes = 0;
    let mut own = 0;
    while let Some(n) = hunt_down(&queues, own, &workers) {
        handles[n as usize].finish(n * 2);
        if wakes_on_completion(outstanding) {
            wakes += 1;
        }
        outstanding -= 1;
        own = (own + 1) % workers.len();
    }
    let sum = handles.iter_mut().map(|handle| handle.poll().unwrap()).sum::<u32>();
    assert_eq!(sum, (0..32u32).map(|n| n * 2).sum::<u32>());
    assert_eq!(outstanding, 0);
    assert!(wakes <= 2);
    assert_eq!(wakes, 1);
}

#[test]
fn a_worker_steals_from_the_others() {
    let (queues, workers) = TaskQueues::with_workers(3);
    workers[2].push(9u32);
    assert_eq!(hunt_down(&queues, 0, &workers), Some(9));
    assert_eq!(hunt_down(&queues, 0, &workers), None);
    assert_eq!(
        settle_probe::<u32>(Stage::Shared, 0, 3, Probe::Empty),
        (Stage::Other(1), Step::Again)
    );
    assert_eq!(
        settle_probe::<u32>(Stage::Other(2), 0, 3, Probe::Empty),
        (Stage::Other(2), Step::Nothing)
    );
    assert_eq!(
        settle_probe::<u32>(Stage::Own, 0, 3, Probe::Retry),
        (Stage::Own, Step::Again)
    );
}

#[test]
fn one_core_is_left_to_the_main_thread() {
    assert_eq!(default_workers(Some(8)), 7);
    assert_eq!(default_workers(Some(1)), 1);
    assert_eq!(default_workers(None), 1);
}

// Logs.

#[test]
fn the_default_goes_to_stdout_and_the_app_log_dir() {
    let config = LogConfig::default();

    assert!(config.to_stdout);
    assert_eq!(config.file, FileSink::Fixed { path: None });
    assert_eq!(config.directives, None);

    let fallback = lxlake::path::places::Paths::fallback("/tmp").default_log_path();
    assert!(fallback.ends_with(DEFAULT_FILE_NAME), "{fallback}");
}

#[test]
fn the_shorthands_write_the_fields() {
    let config = LogConfig::new().level("debug,lxlake=trace").stdout(false).file(false);

    assert_eq!(config.directives.as_deref(), Some("debug,lxlake=trace"));
    assert!(!config.to_stdout);
    assert_eq!(config.file, FileSink::Disabled);

    let config = config.file(true);
    assert_eq!(config.file, FileSink::Fixed { path: None });
    let config = config.file_path("logs/app.log");
    assert_eq!(config.file, FileSink::Fixed { path: Some("logs/app.log".to_owned()) });
}

#[test]
fn rolling_carries_its_knobs() {
    let config =
        LogConfig::new().rolling("logs", "lxlake").rotation(Rotation::Hourly).max_files(3);

    assert_eq!(
        config.file,
        FileSink::Rolling {
            dir: "logs".to_owned(),
            prefix: "lxlake".to_owned(),
            suffix: "log".to_owned(),
            rotation: Rotation::Hourly,
            max_files: Some(3),
        }
    );

    let config = LogConfig::new().file_path("a.log").rotation(Rotation::Never);
    assert_eq!(config.file, FileSink::Fixed { path: Some("a.log".to_owned()) });
    assert_eq!(Rotation::default(), Rotation::Daily);
}

#[test]
fn the_filter_has_an_order() {
    assert_eq!(LogConfig::new().filter(None), "info");
    assert_eq!(LogConfig::new().filter(Some("warn")), "warn");
    assert_eq!(LogConfig::new().directives("debug").filter(Some("warn")), "debug");
    let error = LogError::File { path: "/a".to_owned(), reason: "no".to_owned() };
    assert_eq!(error.display(), "打开日志文件失败：/a（no）");
}

struct Diary(Arc<std::sync::Mutex<Vec<u64>>>);

impl EventSource for Diary {
    fn next_deadline(&self) -> Option<u64> {
        None
    }

    fn pump(&mut self, cx: &mut PumpContext<'_>) -> bool {
        self.0.lock().unwrap().push(cx.now);
        false
    }
}

#[test]
fn a_pump_is_told_the_moment() {
    let (mut cx, _) = context();
    let moments = Arc::new(std::sync::Mutex::new(Vec::new()));
    cx.register_event_source(Box::new(Diary(Arc::clone(&moments))));
    cx.register_event_source(Box::new(Diary(Arc::clone(&moments))));
    assert!(!cx.pump_sources(7));
    assert!(!cx.pump_sources(9));
    assert_eq!(*moments.lock().unwrap(), [7, 7, 9, 9]);
}

#[test]
fn the_deltas_of_frames_add_up() {
    for target in [None, Some(10), Some(1000)] {
        let mut clock = FrameClock::new(target, 100);
        let mut sum = 0;
        for (k, now) in [100, 107, 107, 250, 1250].into_iter().enumerate() {
            let frame = clock.advance(now);
            sum += frame.delta;
            assert_eq!(frame.index, k as u64);
            assert_eq!(frame.elapsed, now - 100);
            assert_eq!(sum, frame.elapsed);
        }
        let back = clock.advance(50);
        assert_eq!((back.delta, back.elapsed), (0, 0));
    }
}

#[test]
fn a_clock_knows_its_end() {
    let clock = FrameClock::new(Some(10), u64::MAX - 10);
    assert!(clock.can_advance(u64::MAX - 10));
    assert!(!clock.can_advance(u64::MAX - 9));
    assert!(FrameClock::new(None, 0).can_advance(u64::MAX));
}

#[test]
fn what_is_due_stays_due() {
    let mut clock = FrameClock::new(Some(10), 100);
    assert!(clock.is_due(100) && clock.is_due(105));
    clock.advance(100);
    assert!(!clock.is_due(100) && !clock.is_due(109));
    assert!(clock.is_due(110) && clock.is_due(111));
}
