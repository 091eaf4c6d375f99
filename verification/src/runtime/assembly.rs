//! The assembly of an application: what it declares before it runs, and whether that fits together.

use crate::capability::webview::{OverlayId, OverlaySpec};
use crate::contract::error::Error;
use crate::contract::window::WindowLabel;
use crate::text::{decimal, push_decimal, same_text};
use vstd::prelude::*;
use vstd::string::StringExecFns;

verus! {

/// Frames per second that an application aims for unless it says otherwise.
pub const DEFAULT_FPS: u32 = 60;

/// Nanoseconds in a second.
pub const NANOS_PER_SECOND: u64 = 1_000_000_000;

/// A window that an application declares. `D` is what the platform needs to know to make it.
#[derive(Debug)]
pub struct WindowSpec<D> {
    pub label: WindowLabel,
    pub desc: D,
}

/// What an application declares. `D` describes a window, `S` the shape of a widget.
pub struct Assembly<D, S> {
    app_id: String,
    windows: Vec<WindowSpec<D>>,
    overlays: Vec<OverlaySpec<S>>,
    frame_interval: Option<u64>,
    workers: Option<usize>,
    reserved_taken: bool,
}

/// Whether a window of this label is declared.
pub open spec fn declares<D>(windows: Seq<WindowSpec<D>>, label: Seq<char>) -> bool {
    exists|i: int| 0 <= i < windows.len() && (#[trigger] windows[i]).label@ == label
}

/// The windows after the main window was declared: it comes first, in place of one declared before.
pub open spec fn with_main<D>(windows: Seq<WindowSpec<D>>, main: WindowSpec<D>) -> Seq<WindowSpec<D>> {
    if windows.len() > 0 && windows[0].label@ == "main"@ {
        windows.update(0, main)
    } else {
        seq![main] + windows
    }
}

/// Whether overlay `i` is attached to a window that is not declared.
pub open spec fn hangs_nowhere<D, S>(
    windows: Seq<WindowSpec<D>>,
    overlays: Seq<OverlaySpec<S>>,
    i: int,
) -> bool {
    !declares(windows, overlays[i].window@)
}

/// Whether an earlier overlay of the same window has the identity of overlay `i`.
pub open spec fn repeats_an_id<S>(overlays: Seq<OverlaySpec<S>>, i: int) -> bool {
    exists|j: int|
        0 <= j < i && (#[trigger] overlays[j]).window@ == overlays[i].window@ && overlays[j].id
            == overlays[i].id
}

/// What is said of an overlay that is attached to no window.
pub open spec fn nowhere_message(id: OverlayId, window: Seq<char>) -> Seq<char> {
    "覆盖层 "@ + decimal(id.0 as nat) + " 挂在不存在的窗口 `"@ + window + "` 上"@
}

/// What is said of an identity that is given twice.
pub open spec fn repeated_message(id: OverlayId, window: Seq<char>) -> Seq<char> {
    "窗口 `"@ + window + "` 上的覆盖层 id 重复："@ + decimal(id.0 as nat)
}

/// Whether overlay `i` is in order.
pub open spec fn overlay_fits<D, S>(
    windows: Seq<WindowSpec<D>>,
    overlays: Seq<OverlaySpec<S>>,
    i: int,
) -> bool {
    !hangs_nowhere(windows, overlays, i) && !repeats_an_id(overlays, i)
}

/// What is said of overlay `i`, which is not in order.
pub open spec fn overlay_fault<D, S>(
    windows: Seq<WindowSpec<D>>,
    overlays: Seq<OverlaySpec<S>>,
    i: int,
) -> Seq<char> {
    if hangs_nowhere(windows, overlays, i) {
        nowhere_message(overlays[i].id, overlays[i].window@)
    } else {
        repeated_message(overlays[i].id, overlays[i].window@)
    }
}

/// Whether an earlier window has the label of window `i`.
pub open spec fn repeats_a_label<D>(windows: Seq<WindowSpec<D>>, i: int) -> bool {
    exists|j: int| 0 <= j < i && (#[trigger] windows[j]).label@ == windows[i].label@
}

/// Whether window `i` cannot be found by its label: it has none, or an earlier window has it.
pub open spec fn label_fails<D>(windows: Seq<WindowSpec<D>>, i: int) -> bool {
    windows[i].label@.len() == 0 || repeats_a_label(windows, i)
}

/// What is said of a label that is empty or given twice.
pub open spec fn label_message(label: Seq<char>) -> Seq<char> {
    if label.len() == 0 {
        "窗口标签不能为空"@
    } else {
        "窗口标签重复：`"@ + label + "`"@
    }
}

fn nowhere_text(id: OverlayId, window: &str) -> (line: String)
    ensures
        line@ == nowhere_message(id, window@),
{
    let mut line = "覆盖层 ".to_owned();
    push_decimal(&mut line, id.0 as u64);
    line.append(" 挂在不存在的窗口 `");
    line.append(window);
    line.append("` 上");
    line
}

fn repeated_text(id: OverlayId, window: &str) -> (line: String)
    ensures
        line@ == repeated_message(id, window@),
{
    let mut line = "窗口 `".to_owned();
    line.append(window);
    line.append("` 上的覆盖层 id 重复：");
    push_decimal(&mut line, id.0 as u64);
    line
}

impl<D, S> Assembly<D, S> {
    /// The identity of the application.
    pub closed spec fn identity(&self) -> Seq<char> {
        self.app_id@
    }

    /// The windows, in the order in which they will be made.
    pub closed spec fn plan(&self) -> Seq<WindowSpec<D>> {
        self.windows@
    }

    /// The overlays, in the order in which they were declared.
    pub closed spec fn layers(&self) -> Seq<OverlaySpec<S>> {
        self.overlays@
    }

    /// The target interval between frames.
    pub closed spec fn pace(&self) -> Option<u64> {
        self.frame_interval
    }

    /// Number of job threads; none if there is no job pool.
    pub closed spec fn threads(&self) -> Option<usize> {
        self.workers
    }

    /// Whether a further window was declared under the label that is reserved for the main window.
    pub closed spec fn takes_reserved_label(&self) -> bool {
        self.reserved_taken
    }

    /// Nothing but defaults: no window, so that an application without one can be expressed.
    pub fn new() -> (assembly: Self)
        ensures
            assembly.identity() == "lxlake"@,
            assembly.plan() == Seq::<WindowSpec<D>>::empty(),
            assembly.layers() == Seq::<OverlaySpec<S>>::empty(),
            assembly.pace() == Some(16_666_666u64),
            assembly.threads() is None,
            !assembly.takes_reserved_label(),
    {
        assert(1_000_000_000int / 60 == 16_666_666) by (nonlinear_arith);
        Assembly {
            app_id: "lxlake".to_owned(),
            windows: Vec::new(),
            overlays: Vec::new(),
            frame_interval: Some(NANOS_PER_SECOND / DEFAULT_FPS as u64),
            workers: None,
            reserved_taken: false,
        }
    }

    /// Names the application.
    pub fn app_id(self, id: &str) -> (assembly: Self)
        ensures
            assembly.identity() == id@,
            assembly.plan() == self.plan(),
            assembly.layers() == self.layers(),
            assembly.pace() == self.pace(),
            assembly.threads() == self.threads(),
            assembly.takes_reserved_label() == self.takes_reserved_label(),
    {
        Assembly { app_id: id.to_owned(), ..self }
    }

    /// Declares the main window; declared again, the later one counts.
    pub fn main_window(self, desc: D) -> (assembly: Self)
        ensures
            exists|main: WindowSpec<D>|
                main.label@ == "main"@ && main.desc == desc && #[trigger] with_main(self.plan(), main)
                    == assembly.plan(),
            assembly.identity() == self.identity(),
            assembly.layers() == self.layers(),
            assembly.pace() == self.pace(),
            assembly.threads() == self.threads(),
            assembly.takes_reserved_label() == self.takes_reserved_label(),
    {
        let main = WindowSpec { label: WindowLabel::new(WindowLabel::MAIN), desc };
        let ghost declared = main;
        let mut assembly = self;
        let replace = assembly.windows.len() > 0 && assembly.windows[0].label.is_main();
        if replace {
            assembly.windows.set(0, main);
        } else {
            assembly.windows.insert(0, main);
        }
        proof {
            assert(with_main(self.plan(), declared) =~= assembly.plan());
        }
        assembly
    }

    /// Declares a further window.
    pub fn create_window(self, label: &str, desc: D) -> (assembly: Self)
        ensures
            assembly.plan().len() == self.plan().len() + 1,
            assembly.plan().drop_last() == self.plan(),
            assembly.plan().last().label@ == label@,
            assembly.plan().last().desc == desc,
            assembly.identity() == self.identity(),
            assembly.layers() == self.layers(),
            assembly.pace() == self.pace(),
            assembly.threads() == self.threads(),
            assembly.takes_reserved_label() == (self.takes_reserved_label() || label@ == "main"@),
    {
        let mut assembly = self;
        if same_text(label, WindowLabel::MAIN) {
            assembly.reserved_taken = true;
        }
        assembly.windows.push(WindowSpec { label: WindowLabel::new(label), desc });
        assert(assembly.plan().drop_last() =~= self.plan());
        assembly
    }

    /// Declares an overlay.
    pub fn webview(self, layer: OverlaySpec<S>) -> (assembly: Self)
        ensures
            assembly.layers() == self.layers().push(layer),
            assembly.identity() == self.identity(),
            assembly.plan() == self.plan(),
            assembly.pace() == self.pace(),
            assembly.threads() == self.threads(),
            assembly.takes_reserved_label() == self.takes_reserved_label(),
    {
        let mut assembly = self;
        assembly.overlays.push(layer);
        assembly
    }

    /// Sets the target interval between frames, in nanoseconds; none leaves frames unpaced.
    pub fn frame_interval(self, interval: Option<u64>) -> (assembly: Self)
        ensures
            assembly.pace() == interval,
            assembly.identity() == self.identity(),
            assembly.plan() == self.plan(),
            assembly.layers() == self.layers(),
            assembly.threads() == self.threads(),
            assembly.takes_reserved_label() == self.takes_reserved_label(),
    {
        Assembly { frame_interval: interval, ..self }
    }

    /// Asks for a job pool with this many threads.
    pub fn workers(self, threads: usize) -> (assembly: Self)
        ensures
            assembly.threads() == Some(threads),
            assembly.identity() == self.identity(),
            assembly.plan() == self.plan(),
            assembly.layers() == self.layers(),
            assembly.pace() == self.pace(),
            assembly.takes_reserved_label() == self.takes_reserved_label(),
    {
        Assembly { workers: Some(threads), ..self }
    }

    /// The identity of the application.
    pub fn declared_id(&self) -> (id: &str)
        ensures
            id@ == self.identity(),
    {
        self.app_id.as_str()
    }

    /// The declared windows.
    pub fn windows(&self) -> (windows: &[WindowSpec<D>])
        ensures
            windows@ == self.plan(),
    {
        self.windows.as_slice()
    }

    /// The declared overlays.
    pub fn overlays(&self) -> (overlays: &[OverlaySpec<S>])
        ensures
            overlays@ == self.layers(),
    {
        self.overlays.as_slice()
    }

    /// The target interval between frames.
    pub fn interval(&self) -> (interval: Option<u64>)
        ensures
            interval == self.pace(),
    {
        self.frame_interval
    }

    /// Number of job threads.
    pub fn worker_threads(&self) -> (threads: Option<usize>)
        ensures
            threads == self.threads(),
    {
        self.workers
    }

    fn is_declared(&self, label: &str) -> (yes: bool)
        ensures
            yes == declares(self.plan(), label@),
    {
        let mut i: usize = 0;
        while i < self.windows.len()
            invariant
                i <= self.windows@.len(),
                forall|j: int| 0 <= j < i ==> (#[trigger] self.windows@[j]).label@ != label@,
            decreases self.windows@.len() - i,
        {
            if same_text(self.windows[i].label.as_str(), label) {
                assert(self.windows@[i as int].label@ == label@);
                return true;
            }
            i += 1;
        }
        false
    }

    fn is_repeated(&self, i: usize) -> (yes: bool)
        requires
            i < self.layers().len(),
        ensures
            yes == repeats_an_id(self.layers(), i as int),
    {
        let layer = &self.overlays[i];
        let mut j: usize = 0;
        while j < i
            invariant
                j <= i < self.overlays@.len(),
                *layer == self.overlays@[i as int],
                forall|k: int|
                    0 <= k < j ==> !((#[trigger] self.overlays@[k]).window@ == layer.window@
                        && self.overlays@[k].id == layer.id),
            decreases i - j,
        {
            let other = &self.overlays[j];
            if other.id == layer.id && same_text(other.window.as_str(), layer.window.as_str()) {
                assert(self.overlays@[j as int].window@ == self.overlays@[i as int].window@);
                return true;
            }
            j += 1;
        }
        false
    }

    /// Whether the overlays are in order: each is attached to a declared window, and no window has two
    /// of the same identity. The first that is not is reported.
    pub fn validate_overlays(&self) -> (result: Result<(), Error>)
        ensures
            result is Ok <==> forall|i: int|
                0 <= i < self.layers().len() ==> #[trigger] overlay_fits(self.plan(), self.layers(), i),
            result matches Err(error) ==> exists|i: int|
                {
                    &&& 0 <= i < self.layers().len()
                    &&& !#[trigger] overlay_fits(self.plan(), self.layers(), i)
                    &&& forall|j: int|
                        0 <= j < i ==> #[trigger] overlay_fits(self.plan(), self.layers(), j)
                    &&& error matches Error::Config(message)
                    &&& message@ == overlay_fault(self.plan(), self.layers(), i)
                },
    {
        let mut i: usize = 0;
        while i < self.overlays.len()
            invariant
                i <= self.overlays@.len(),
                forall|j: int|
                    0 <= j < i ==> #[trigger] overlay_fits(self.plan(), self.layers(), j),
            decreases self.overlays@.len() - i,
        {
            let layer = &self.overlays[i];
            if !self.is_declared(layer.window.as_str()) {
                let message = nowhere_text(layer.id, layer.window.as_str());
                assert(!overlay_fits(self.plan(), self.layers(), i as int));
                return Err(Error::Config(message));
            }
            if self.is_repeated(i) {
                let message = repeated_text(layer.id, layer.window.as_str());
                assert(!overlay_fits(self.plan(), self.layers(), i as int));
                return Err(Error::Config(message));
            }
            assert(overlay_fits(self.plan(), self.layers(), i as int));
            i += 1;
        }
        Ok(())
    }

    /// Whether the windows are in order: the reserved label is left to the main window, and every
    /// label is there and is given once. The first that is not is reported.
    pub fn validate_windows(&self) -> (result: Result<(), Error>)
        ensures
            result is Ok <==> !self.takes_reserved_label() && forall|i: int|
                0 <= i < self.plan().len() ==> !#[trigger] label_fails(self.plan(), i),
            result matches Err(error) ==> error is Config,
            self.takes_reserved_label() ==> (result matches Err(Error::Config(message)) && message@
                == "窗口标签 `main` 是保留标签"@),
            !self.takes_reserved_label() ==> (result matches Err(error) ==> exists|i: int|
                {
                    &&& 0 <= i < self.plan().len()
                    &&& #[trigger] label_fails(self.plan(), i)
                    &&& forall|j: int| 0 <= j < i ==> !#[trigger] label_fails(self.plan(), j)
                    &&& error matches Error::Config(message)
                    &&& message@ == label_message(self.plan()[i].label@)
                }),
    {
        if self.reserved_taken {
            return Err(Error::Config("窗口标签 `main` 是保留标签".to_owned()));
        }
        let mut i: usize = 0;
        while i < self.windows.len()
            invariant
                i <= self.windows@.len(),
                !self.reserved_taken,
                forall|j: int| 0 <= j < i ==> !#[trigger] label_fails(self.plan(), j),
            decreases self.windows@.len() - i,
        {
            let label = self.windows[i].label.as_str();
            if label.unicode_len() == 0 {
                assert(label_fails(self.plan(), i as int));
                return Err(Error::Config("窗口标签不能为空".to_owned()));
            }
            if self.is_taken(i) {
                assert(label_fails(self.plan(), i as int));
                let mut line = "窗口标签重复：`".to_owned();
                line.append(label);
                line.append("`");
                return Err(Error::Config(line));
            }
            assert(!label_fails(self.plan(), i as int));
            i += 1;
        }
        Ok(())
    }

    fn is_taken(&self, i: usize) -> (taken: bool)
        requires
            i < self.plan().len(),
        ensures
            taken == repeats_a_label(self.plan(), i as int),
    {
        let mut j: usize = 0;
        while j < i
            invariant
                j <= i < self.windows@.len(),
                forall|k: int|
                    0 <= k < j ==> (#[trigger] self.windows@[k]).label@
                        != self.windows@[i as int].label@,
            decreases i - j,
        {
            if same_text(self.windows[j].label.as_str(), self.windows[i].label.as_str()) {
                assert(self.windows@[j as int].label@ == self.windows@[i as int].label@);
                return true;
            }
            j += 1;
        }
        false
    }

    /// Which overlays are attached to a window, in the order in which they were declared.
    pub fn overlays_of(&self, label: &str) -> (indices: Vec<usize>)
        ensures
            forall|i: int|
                0 <= i < indices@.len() ==> (#[trigger] indices@[i]) < self.layers().len()
                    && self.layers()[indices@[i] as int].window@ == label@,
            forall|i: int, j: int|
                0 <= i < j < indices@.len() ==> (#[trigger] indices@[i]) < (#[trigger] indices@[j]),
            forall|k: int|
                0 <= k < self.layers().len() && (#[trigger] self.layers()[k]).window@ == label@
                    ==> indices@.contains(k as usize),
    {
        let mut indices: Vec<usize> = Vec::new();
        let mut k: usize = 0;
        while k < self.overlays.len()
            invariant
                k <= self.overlays@.len(),
                forall|i: int|
                    0 <= i < indices@.len() ==> (#[trigger] indices@[i]) < k
                        && self.layers()[indices@[i] as int].window@ == label@,
                forall|i: int, j: int|
                    0 <= i < j < indices@.len() ==> (#[trigger] indices@[i]) < (#[trigger] indices@[j]),
                forall|m: int|
                    0 <= m < k && (#[trigger] self.layers()[m]).window@ == label@ ==> indices@.contains(
                        m as usize,
                    ),
            decreases self.overlays@.len() - k,
        {
            let ghost before = indices@;
            if same_text(self.overlays[k].window.as_str(), label) {
                indices.push(k);
                proof {
                    assert(indices@[before.len() as int] == k);
                    assert forall|m: int|
                        0 <= m < k + 1 && (#[trigger] self.layers()[m]).window@ == label@ implies indices@.contains(
                        m as usize,
                    ) by {
                        crate::shared::pushed_contains(before, k, m as usize);
                    }
                }
            }
            k += 1;
        }
        indices
    }
}

/// Declaring the main window puts it first, once, and moves no other window.
pub proof fn the_main_window_comes_first<D>(windows: Seq<WindowSpec<D>>, main: WindowSpec<D>)
    requires
        main.label@ == "main"@,
    ensures
        with_main(windows, main)[0] == main,
        with_main(with_main(windows, main), main) == with_main(windows, main),
{
    assert(with_main(with_main(windows, main), main) =~= with_main(windows, main));
}

/// The same identity on two windows is no fault: only a second one on the same window is.
pub proof fn an_id_may_stand_on_two_windows<S>(overlays: Seq<OverlaySpec<S>>, i: int)
    requires
        forall|j: int| 0 <= j < i ==> (#[trigger] overlays[j]).window@ != overlays[i].window@,
    ensures
        !repeats_an_id(overlays, i),
{
}

/// Declaring the main window leaves the others as they are, in their order behind it.
pub proof fn the_other_windows_stay<D>(windows: Seq<WindowSpec<D>>, main: WindowSpec<D>, i: int)
    requires
        main.label@ == "main"@,
    ensures
        ({
            let declared = windows.len() > 0 && windows[0].label@ == "main"@;
            let after = with_main(windows, main);
            &&& after.len() == windows.len() + (if declared {
                0int
            } else {
                1
            })
            &&& declared && 1 <= i < windows.len() ==> after[i] == windows[i]
            &&& !declared && 0 <= i < windows.len() ==> after[i + 1] == windows[i]
        }),
{
}

/// What is said of an overlay names it and its window; a window that is missing is said first.
pub proof fn a_missing_window_is_said_first<D, S>(
    windows: Seq<WindowSpec<D>>,
    overlays: Seq<OverlaySpec<S>>,
    i: int,
)
    ensures
        !declares(windows, overlays[i].window@) ==> overlay_fault(windows, overlays, i) == nowhere_message(
            overlays[i].id,
            overlays[i].window@,
        ) && !overlay_fits(windows, overlays, i),
        declares(windows, overlays[i].window@) && repeats_an_id(overlays, i) ==> overlay_fault(windows, overlays, i)
            == repeated_message(overlays[i].id, overlays[i].window@) && !overlay_fits(windows, overlays, i),
        declares(windows, overlays[i].window@) && !repeats_an_id(overlays, i) ==> overlay_fits(windows, overlays, i),
{
}

/// Labels are in order exactly if none is empty and no two are alike.
pub proof fn labels_are_in_order_if_they_tell_windows_apart<D>(windows: Seq<WindowSpec<D>>)
    ensures
        (forall|i: int| 0 <= i < windows.len() ==> !#[trigger] label_fails(windows, i)) <==> (forall|i: int|
            0 <= i < windows.len() ==> (#[trigger] windows[i]).label@.len() > 0) && (forall|i: int, j: int|
            0 <= i < windows.len() && 0 <= j < windows.len() && (#[trigger] windows[i]).label@ == (
            #[trigger] windows[j]).label@ ==> i == j),
{
    if forall|i: int| 0 <= i < windows.len() ==> !#[trigger] label_fails(windows, i) {
        assert forall|i: int| 0 <= i < windows.len() implies (#[trigger] windows[i]).label@.len() > 0 by {
            assert(!label_fails(windows, i));
        }
        assert forall|i: int, j: int|
            0 <= i < windows.len() && 0 <= j < windows.len() && (#[trigger] windows[i]).label@ == (
            #[trigger] windows[j]).label@ implies i == j by {
            if i < j {
                assert(!label_fails(windows, j));
                assert(repeats_a_label(windows, j));
            } else if j < i {
                assert(!label_fails(windows, i));
                assert(repeats_a_label(windows, i));
            }
        }
    }
    if (forall|i: int| 0 <= i < windows.len() ==> (#[trigger] windows[i]).label@.len() > 0) && (forall|i: int, j: int|
        0 <= i < windows.len() && 0 <= j < windows.len() && (#[trigger] windows[i]).label@ == (
        #[trigger] windows[j]).label@ ==> i == j) {
        assert forall|i: int| 0 <= i < windows.len() implies !#[trigger] label_fails(windows, i) by {
            assert(windows[i].label@.len() > 0);
        }
    }
}

} // verus!
