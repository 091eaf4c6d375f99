//! Web views: native overlays over the picture, and what a build can offer of them.
//!
//! Sandboxing fails closed: a view that must be sandboxed is refused where no sandbox can be had.

use crate::contract::widget::Widget;
use crate::contract::window::WindowLabel;
use vstd::prelude::*;
use vstd::string::StringExecFns;

verus! {

/// Identity of an overlay, numbered by the application.
#[derive(Debug, Clone, Copy, PartialEq, Eq, Hash, PartialOrd, Ord, Structural)]
pub struct OverlayId(pub u32);

/// What a web view shows.
#[derive(Debug, PartialEq, Eq)]
pub enum WebViewSource {
    Url(String),
    Html(String),
}

/// Whether a web view must be sandboxed.
#[derive(Debug, Clone, Copy, PartialEq, Eq, Structural)]
pub enum SandboxPolicy {
    Required,
    Disabled,
}

impl Default for SandboxPolicy {
    fn default() -> (policy: Self)
        ensures
            policy == SandboxPolicy::Required,
    {
        SandboxPolicy::Required
    }
}

/// How a web view is to be made.
#[derive(Debug, PartialEq, Eq)]
pub struct WebViewConfig {
    pub source: WebViewSource,
    /// What lies below shines through.
    pub transparent: bool,
    pub devtools: bool,
    pub sandbox: SandboxPolicy,
}

impl WebViewSource {
    /// Whether both show the same.
    pub open spec fn same(&self, other: &WebViewSource) -> bool {
        match (self, other) {
            (WebViewSource::Url(a), WebViewSource::Url(b)) => a@ == b@,
            (WebViewSource::Html(a), WebViewSource::Html(b)) => a@ == b@,
            _ => false,
        }
    }

    fn copy(&self) -> (copy: Self)
        ensures
            copy.same(self),
    {
        match self {
            WebViewSource::Url(url) => WebViewSource::Url(url.as_str().to_owned()),
            WebViewSource::Html(html) => WebViewSource::Html(html.as_str().to_owned()),
        }
    }
}

impl WebViewConfig {
    fn from_source(source: WebViewSource) -> (config: Self)
        ensures
            config == (WebViewConfig {
                source,
                transparent: false,
                devtools: false,
                sandbox: SandboxPolicy::Required,
            }),
    {
        WebViewConfig {
            source,
            transparent: false,
            devtools: false,
            sandbox: SandboxPolicy::default(),
        }
    }

    /// A view of a document that is given here.
    pub fn html(html: &str) -> (config: Self)
        ensures
            config.source matches WebViewSource::Html(shown) && shown@ == html@,
            !config.transparent,
            !config.devtools,
            config.sandbox == SandboxPolicy::Required,
    {
        Self::from_source(WebViewSource::Html(html.to_owned()))
    }

    /// A view of an address.
    pub fn url(url: &str) -> (config: Self)
        ensures
            config.source matches WebViewSource::Url(shown) && shown@ == url@,
            !config.transparent,
            !config.devtools,
            config.sandbox == SandboxPolicy::Required,
    {
        Self::from_source(WebViewSource::Url(url.to_owned()))
    }

    pub fn transparent(self, transparent: bool) -> (config: Self)
        ensures
            config == (WebViewConfig { transparent, ..self }),
    {
        WebViewConfig { transparent, ..self }
    }

    pub fn devtools(self, devtools: bool) -> (config: Self)
        ensures
            config == (WebViewConfig { devtools, ..self }),
    {
        WebViewConfig { devtools, ..self }
    }

    pub fn sandbox(self, sandbox: SandboxPolicy) -> (config: Self)
        ensures
            config == (WebViewConfig { sandbox, ..self }),
    {
        WebViewConfig { sandbox, ..self }
    }

    /// Whether both ask for the same view.
    pub open spec fn same(&self, other: &WebViewConfig) -> bool {
        &&& self.source.same(&other.source)
        &&& self.transparent == other.transparent
        &&& self.devtools == other.devtools
        &&& self.sandbox == other.sandbox
    }

    /// A second configuration that asks for the same view.
    pub fn copy(&self) -> (copy: Self)
        ensures
            copy.same(self),
    {
        WebViewConfig {
            source: self.source.copy(),
            transparent: self.transparent,
            devtools: self.devtools,
            sandbox: self.sandbox,
        }
    }
}

/// How a web view is presented.
#[derive(Debug, Clone, Copy, PartialEq, Eq, Structural)]
pub enum Mode {
    /// A native child window above everything else.
    Overlay,
    /// A texture that the renderer draws.
    Texture,
}

/// What a build offers.
#[derive(Debug, Clone, Copy, PartialEq, Eq, Structural)]
pub struct Capabilities {
    pub overlay: bool,
    pub texture: bool,
    pub sandbox: bool,
    pub devtools: bool,
}

impl Capabilities {
    /// What a build without a backend offers: nothing.
    pub fn none() -> (capabilities: Self)
        ensures
            capabilities == (Capabilities {
                overlay: false,
                texture: false,
                sandbox: false,
                devtools: false,
            }),
    {
        Capabilities { overlay: false, texture: false, sandbox: false, devtools: false }
    }

    /// Whether views of this mode can be made.
    pub open spec fn offers(self, mode: Mode) -> bool {
        match mode {
            Mode::Overlay => self.overlay,
            Mode::Texture => self.texture,
        }
    }

    /// Whether views of this mode can be made.
    pub fn supports(self, mode: Mode) -> (yes: bool)
        ensures
            yes == self.offers(mode),
    {
        match mode {
            Mode::Overlay => self.overlay,
            Mode::Texture => self.texture,
        }
    }
}

/// What this build offers: it has no backend.
pub fn capabilities() -> (capabilities: Capabilities)
    ensures
        forall|mode: Mode| !#[trigger] capabilities.offers(mode),
        !capabilities.sandbox,
        !capabilities.devtools,
{
    Capabilities::none()
}

/// What a backend over the system's own web view offers: overlays in a process of their own, and
/// developer tools in debug builds.
pub fn native_capabilities(debug: bool) -> (capabilities: Capabilities)
    ensures
        capabilities == (Capabilities { overlay: true, texture: false, sandbox: true, devtools: debug }),
{
    Capabilities { overlay: true, texture: false, sandbox: true, devtools: debug }
}

/// Why a web view was not made.
#[derive(Debug, PartialEq, Eq)]
pub enum WebViewError {
    /// There is no backend for this mode here.
    Unsupported { platform: &'static str, mode: Mode },
    /// A sandbox is required and cannot be had.
    SandboxUnsupported,
    /// The backend itself failed.
    Backend(String),
}

/// What a mode is called.
pub open spec fn mode_name(mode: Mode) -> Seq<char> {
    match mode {
        Mode::Overlay => "覆盖层"@,
        Mode::Texture => "纹理层"@,
    }
}

impl WebViewError {
    /// The error as a line of text.
    pub open spec fn shown(&self) -> Seq<char> {
        match self {
            WebViewError::Unsupported { platform, mode } => platform@ + " 上没有"@ + mode_name(*mode)
                + "形态的 webview 后端"@,
            WebViewError::SandboxUnsupported => "当前 webview 后端给不出沙箱，按 fail-closed 拒建"@,
            WebViewError::Backend(message) => "webview 后端失败："@ + message@,
        }
    }

    /// The error as a line of text.
    pub fn display(&self) -> (line: String)
        ensures
            line@ == self.shown(),
    {
        match self {
            WebViewError::Unsupported { platform, mode } => {
                let name = match mode {
                    Mode::Overlay => "覆盖层",
                    Mode::Texture => "纹理层",
                };
                let mut line = (*platform).to_owned();
                line.append(" 上没有");
                line.append(name);
                line.append("形态的 webview 后端");
                line
            },
            WebViewError::SandboxUnsupported => "当前 webview 后端给不出沙箱，按 fail-closed 拒建".to_owned(),
            WebViewError::Backend(message) => {
                let line = "webview 后端失败：".to_owned();
                line.concat(message.as_str())
            },
        }
    }
}

/// A web view that was made. `R` is a rectangle in logical pixels.
pub trait WebViewHandle<R> {
    fn mode(&self) -> Mode;

    fn bounds(&self) -> R;

    fn set_bounds(&mut self, rect: R);

    fn set_visible(&mut self, visible: bool);

    fn navigate(&mut self, url: &str);

    fn evaluate_script(&mut self, js: &str);

    /// Frees what the view holds.
    fn close(&mut self);
}

/// Whether a configuration can be met with what the backend offers. Only the configuration is looked
/// at: whether there is a backend at all is for [`admit_overlay`] to say.
pub fn validate(config: &WebViewConfig, offered: Capabilities) -> (result: Result<(), WebViewError>)
    ensures
        result is Ok <==> (config.sandbox == SandboxPolicy::Required ==> offered.sandbox),
        result matches Err(error) ==> error == WebViewError::SandboxUnsupported,
{
    if config.sandbox == SandboxPolicy::Required && !offered.sandbox {
        return Err(WebViewError::SandboxUnsupported);
    }
    Ok(())
}

/// Whether an overlay can be made. That there is no backend is answered first: it must not be
/// mistaken for a missing sandbox.
pub fn admit_overlay(config: &WebViewConfig, offered: Capabilities, platform: &'static str) -> (result:
    Result<(), WebViewError>)
    ensures
        result is Ok <==> offered.overlay && (config.sandbox == SandboxPolicy::Required
            ==> offered.sandbox),
        !offered.overlay ==> result == Err::<(), WebViewError>(
            WebViewError::Unsupported { platform, mode: Mode::Overlay },
        ),
        offered.overlay && result is Err ==> result == Err::<(), WebViewError>(
            WebViewError::SandboxUnsupported,
        ),
{
    if !offered.supports(Mode::Overlay) {
        return Err(WebViewError::Unsupported { platform, mode: Mode::Overlay });
    }
    validate(config, offered)
}

/// An overlay that an application declares: where it goes, what it shows and where it stands.
#[derive(Debug)]
pub struct OverlaySpec<S> {
    pub id: OverlayId,
    /// The window that it is attached to.
    pub window: WindowLabel,
    pub config: WebViewConfig,
    pub widget: Widget<S>,
}

impl<S> OverlaySpec<S> {
    /// An overlay of the main window.
    pub fn new(id: OverlayId, widget: Widget<S>, config: WebViewConfig) -> (declared: Self)
        ensures
            declared.id == id,
            declared.window@ == "main"@,
            declared.config == config,
            declared.widget == (Widget { overlay: true, ..widget }),
    {
        OverlaySpec { id, window: WindowLabel::new(WindowLabel::MAIN), config, widget: widget.overlay() }
    }

    /// The overlay, attached to another window.
    pub fn window(self, label: &str) -> (declared: Self)
        ensures
            declared.id == self.id,
            declared.window@ == label@,
            declared.config == self.config,
            declared.widget == self.widget,
    {
        OverlaySpec { window: WindowLabel::new(label), ..self }
    }
}

/// A view over a native child window: what it is known to occupy, until it is closed. `R` is a
/// rectangle in logical pixels.
#[derive(Debug)]
pub struct OverlayState<R> {
    open: bool,
    rect: R,
}

impl<R: Copy> OverlayState<R> {
    /// Whether the native window is still there.
    pub closed spec fn is_open(&self) -> bool {
        self.open
    }

    /// The rectangle that the native window was last moved to.
    pub closed spec fn area(&self) -> R {
        self.rect
    }

    pub fn new(rect: R) -> (state: Self)
        ensures
            state.is_open(),
            state.area() == rect,
    {
        OverlayState { open: true, rect }
    }

    pub fn bounds(&self) -> (rect: R)
        ensures
            rect == self.area(),
    {
        self.rect
    }

    /// Whether a request is to be passed on to the native window.
    pub fn accepts_requests(&self) -> (open: bool)
        ensures
            open == self.is_open(),
    {
        self.open
    }

    /// The native window was asked to move; if it refused, it stays where it was.
    pub fn moved(&mut self, rect: R, done: bool)
        ensures
            final(self).is_open() == old(self).is_open(),
            final(self).area() == if old(self).is_open() && done {
                rect
            } else {
                old(self).area()
            },
    {
        if self.open && done {
            self.rect = rect;
        }
    }

    /// Closes the view; true if there is a native window to free. A second call frees nothing.
    pub fn close(&mut self) -> (frees: bool)
        ensures
            frees == old(self).is_open(),
            !final(self).is_open(),
            final(self).area() == old(self).area(),
    {
        let frees = self.open;
        self.open = false;
        frees
    }
}

} // verus!
