//! The icon in the system tray and its menu.

use crate::daemon::events;
use crate::daemon::events::{Event, EventModel, ShowWindowKind};
use vstd::prelude::*;

verus! {

/// What the menu asks for.
#[derive(Debug, Clone, Copy, PartialEq, Eq, Structural)]
pub enum TrayCmd {
    Open(ShowWindowKind),
    ToggleAuto(bool),
    Quit,
}

/// How a window is opened.
#[derive(Debug, Clone, Copy, PartialEq, Eq, Structural)]
pub enum OpenPlan {
    /// By an event to the program that runs.
    Event,
    /// By starting the program.
    Spawn,
}

/// A program that runs is told; otherwise it is started.
pub fn open_window_plan(gui_connected: bool) -> (r: OpenPlan)
    ensures
        r == (if gui_connected {
            OpenPlan::Event
        } else {
            OpenPlan::Spawn
        }),
{
    if gui_connected {
        OpenPlan::Event
    } else {
        OpenPlan::Spawn
    }
}

/// The argument that starts the program with a window.
pub open spec fn window_arg(k: ShowWindowKind) -> Seq<char> {
    match k {
        ShowWindowKind::Main => "--main"@,
        ShowWindowKind::Settings => "--settings"@,
    }
}

/// What is done for a command.
#[derive(Debug, Clone, PartialEq)]
pub enum TrayStep {
    /// Send this line to the windows that listen.
    Publish(String),
    /// Start the program of the windows with this argument.
    Spawn(&'static str),
    /// Have listening to the clipboard on or off.
    Watch(bool),
    /// Write the setting to the configuration file.
    Persist(bool),
    /// Change the setting that is in effect.
    Apply(bool),
    /// Stop the daemon.
    Shutdown,
}

/// What a [`TrayStep`] says.
pub enum TrayModel {
    Publish(Seq<char>),
    Spawn(Seq<char>),
    Watch(bool),
    Persist(bool),
    Apply(bool),
    Shutdown,
}

impl DeepView for TrayStep {
    type V = TrayModel;

    open spec fn deep_view(&self) -> TrayModel {
        match self {
            TrayStep::Publish(l) => TrayModel::Publish(l@),
            TrayStep::Spawn(a) => TrayModel::Spawn(a@),
            TrayStep::Watch(v) => TrayModel::Watch(*v),
            TrayStep::Persist(v) => TrayModel::Persist(*v),
            TrayStep::Apply(v) => TrayModel::Apply(*v),
            TrayStep::Shutdown => TrayModel::Shutdown,
        }
    }
}

/// What is done for a command, in order. A step that fails stops none of the
/// others.
pub open spec fn steps_for(cmd: TrayCmd, gui_connected: bool) -> Seq<TrayModel> {
    match cmd {
        TrayCmd::Open(kind) => if gui_connected {
            seq![TrayModel::Publish(events::event_json(EventModel::ShowWindow { kind }))]
        } else {
            seq![TrayModel::Spawn(window_arg(kind))]
        },
        TrayCmd::ToggleAuto(v) => seq![
            TrayModel::Watch(v),
            TrayModel::Persist(v),
            TrayModel::Apply(v),
        ],
        TrayCmd::Quit => seq![TrayModel::Shutdown],
    }
}

/// What is done for a command, in order.
pub fn handle_cmd(cmd: TrayCmd, gui_connected: bool) -> (r: Vec<TrayStep>)
    ensures
        r.deep_view() == steps_for(cmd, gui_connected),
{
    let mut r: Vec<TrayStep> = Vec::new();
    match cmd {
        TrayCmd::Open(kind) => match open_window_plan(gui_connected) {
            OpenPlan::Event => r.push(TrayStep::Publish((Event::ShowWindow { kind }).to_line())),
            OpenPlan::Spawn => r.push(
                TrayStep::Spawn(
                    match kind {
                        ShowWindowKind::Main => "--main",
                        ShowWindowKind::Settings => "--settings",
                    },
                ),
            ),
        },
        TrayCmd::ToggleAuto(v) => {
            r.push(TrayStep::Watch(v));
            r.push(TrayStep::Persist(v));
            r.push(TrayStep::Apply(v));
        },
        TrayCmd::Quit => r.push(TrayStep::Shutdown),
    }
    assert(r.deep_view() =~= steps_for(cmd, gui_connected));
    r
}

// The menu

/// An entry of the menu.
#[derive(Debug, Clone, PartialEq)]
pub enum MenuEntry {
    /// A label and what choosing it asks for.
    Item(&'static str, TrayCmd),
    /// A label that is checked or not, and what choosing it asks for.
    Check(&'static str, bool, TrayCmd),
    Separator,
}

/// What a [`MenuEntry`] says.
pub enum MenuModel {
    Item(Seq<char>, TrayCmd),
    Check(Seq<char>, bool, TrayCmd),
    Separator,
}

impl DeepView for MenuEntry {
    type V = MenuModel;

    open spec fn deep_view(&self) -> MenuModel {
        match self {
            MenuEntry::Item(l, c) => MenuModel::Item(l@, *c),
            MenuEntry::Check(l, b, c) => MenuModel::Check(l@, *b, *c),
            MenuEntry::Separator => MenuModel::Separator,
        }
    }
}

/// The tray: whether copied text is translated by itself.
#[derive(Debug, Clone, Copy, PartialEq, Eq, Structural)]
pub struct PardonTray {
    pub auto: bool,
}

/// The entries of the menu.
pub open spec fn menu_for(auto: bool) -> Seq<MenuModel> {
    seq![
        MenuModel::Item("打开主窗口"@, TrayCmd::Open(ShowWindowKind::Main)),
        MenuModel::Item("设置"@, TrayCmd::Open(ShowWindowKind::Settings)),
        MenuModel::Separator,
        MenuModel::Check("复制即翻译"@, auto, TrayCmd::ToggleAuto(!auto)),
        MenuModel::Separator,
        MenuModel::Item("退出 pardond"@, TrayCmd::Quit),
    ]
}

impl PardonTray {
    /// The entries of the menu.
    pub fn menu(&self) -> (r: Vec<MenuEntry>)
        ensures
            r.deep_view() == menu_for(self.auto),
    {
        let mut r: Vec<MenuEntry> = Vec::new();
        r.push(MenuEntry::Item("打开主窗口", TrayCmd::Open(ShowWindowKind::Main)));
        r.push(MenuEntry::Item("设置", TrayCmd::Open(ShowWindowKind::Settings)));
        r.push(MenuEntry::Separator);
        r.push(MenuEntry::Check("复制即翻译", self.auto, TrayCmd::ToggleAuto(!self.auto)));
        r.push(MenuEntry::Separator);
        r.push(MenuEntry::Item("退出 pardond", TrayCmd::Quit));
        assert(r.deep_view() =~= menu_for(self.auto));
        r
    }

    /// Takes over what a command says of the setting.
    pub fn take(&mut self, cmd: TrayCmd)
        ensures
            final(self).auto == (match cmd {
                TrayCmd::ToggleAuto(v) => v,
                _ => old(self).auto,
            }),
    {
        match cmd {
            TrayCmd::ToggleAuto(v) => {
                self.auto = v;
            },
            _ => {},
        }
    }
}

/// Choosing the checked entry twice leads back to the setting before.
pub proof fn law_toggling_twice_restores(auto: bool)
    ensures
        menu_for(auto)[3] == MenuModel::Check("复制即翻译"@, auto, TrayCmd::ToggleAuto(!auto)),
        menu_for(!auto)[3] == MenuModel::Check("复制即翻译"@, !auto, TrayCmd::ToggleAuto(auto)),
{
}

// The icon

/// An image: its width, its height, and four bytes for each pixel.
#[derive(Debug, Clone, PartialEq)]
pub struct Picture {
    pub width: u32,
    pub height: u32,
    pub pixels: Vec<u8>,
}

/// What a [`Picture`] says.
#[verifier::ext_equal]
pub struct PictureModel {
    pub width: u32,
    pub height: u32,
    pub pixels: Seq<u8>,
}

impl DeepView for Picture {
    type V = PictureModel;

    open spec fn deep_view(&self) -> PictureModel {
        PictureModel { width: self.width, height: self.height, pixels: self.pixels@ }
    }
}

/// The image that the `image` crate decodes from `png`, as red, green, blue and
/// opacity, if it can.
pub uninterp spec fn decoded(png: Seq<u8>) -> Option<PictureModel>;

/// `image::load_from_memory_with_format` for PNG, and `to_rgba8` on the result,
/// with `None` for any error. The image depends on `png` alone.
#[verifier::external_body]
fn decode_png(png: &[u8]) -> (r: Option<Picture>)
    ensures
        r.deep_view() == decoded(png@),
{
    let img = image::load_from_memory_with_format(png, image::ImageFormat::Png).ok()?.to_rgba8();
    Some(Picture { width: img.width(), height: img.height(), pixels: img.into_raw() })
}

/// The pixels with their opacity first. Bytes after the last whole pixel are
/// left out.
pub open spec fn opacity_first(rgba: Seq<u8>) -> Seq<u8> {
    Seq::new(
        (rgba.len() / 4 * 4) as nat,
        |i: int|
            if i % 4 == 0 {
                rgba[i + 3]
            } else {
                rgba[i - 1]
            },
    )
}

/// The pixels with their opacity first.
pub fn to_argb(rgba: &Vec<u8>) -> (r: Vec<u8>)
    ensures
        r@ == opacity_first(rgba@),
{
    let mut r: Vec<u8> = Vec::new();
    let n: usize = rgba.len() / 4;
    assert(rgba@.len() <= usize::MAX);
    let mut i: usize = 0;
    while i < n
        invariant
            i <= n,
            n == rgba@.len() / 4,
            rgba@.len() <= usize::MAX,
            r@.len() == i * 4,
            forall|k: int| 0 <= k < i * 4 ==> #[trigger] r@[k] == opacity_first(rgba@)[k],
        decreases n - i,
    {
        assert(i * 4 + 3 < rgba@.len());
        let b: usize = i * 4;
        r.push(rgba[b + 3]);
        r.push(rgba[b]);
        r.push(rgba[b + 1]);
        r.push(rgba[b + 2]);
        i += 1;
    }
    assert(r@ =~= opacity_first(rgba@));
    r
}

/// The icon with its opacity first, for an image.
pub fn icon_of(p: &Picture) -> (r: Picture)
    ensures
        r.deep_view() == (PictureModel {
            width: p.width,
            height: p.height,
            pixels: opacity_first(p.pixels@),
        }),
{
    Picture { width: p.width, height: p.height, pixels: to_argb(&p.pixels) }
}

/// The icon with its opacity first, from a PNG file.
pub fn tray_icon(png: &[u8]) -> (r: Option<Picture>)
    ensures
        r.deep_view() == (match decoded(png@) {
            Some(p) => Some(
                PictureModel {
                    width: p.width,
                    height: p.height,
                    pixels: opacity_first(p.pixels),
                },
            ),
            None => None,
        }),
{
    match decode_png(png) {
        Some(p) => Some(icon_of(&p)),
        None => None,
    }
}

/// A window is opened by an event where a program listens, and by starting the
/// program otherwise. Switching the setting has the clipboard listened to or
/// not, writes the setting down and puts it into effect, all with the value that
/// was asked for. Quitting stops the daemon.
pub proof fn law_commands(v: bool, kind: ShowWindowKind)
    ensures
        steps_for(TrayCmd::Open(kind), true) == seq![
            TrayModel::Publish(events::event_json(EventModel::ShowWindow { kind })),
        ],
        steps_for(TrayCmd::Open(ShowWindowKind::Main), false) == seq![TrayModel::Spawn("--main"@)],
        steps_for(TrayCmd::Open(ShowWindowKind::Settings), false) == seq![
            TrayModel::Spawn("--settings"@),
        ],
        forall|g: bool|
            #[trigger] steps_for(TrayCmd::ToggleAuto(v), g) == seq![
                TrayModel::Watch(v),
                TrayModel::Persist(v),
                TrayModel::Apply(v),
            ],
        forall|g: bool| #[trigger] steps_for(TrayCmd::Quit, g) == seq![TrayModel::Shutdown],
{
}

/// The menu opens either window, switches the setting to what it is not, and
/// quits; the entry for the setting is checked where it is on. A command to
/// switch is what the tray then shows, and no other command changes that.
pub proof fn law_menu(auto: bool, plan: OpenPlan, gui_connected: bool)
    requires
        call_ensures(open_window_plan, (gui_connected,), plan),
    ensures
        menu_for(auto).len() == 6,
        menu_for(auto)[0] == MenuModel::Item("打开主窗口"@, TrayCmd::Open(ShowWindowKind::Main)),
        menu_for(auto)[1] == MenuModel::Item("设置"@, TrayCmd::Open(ShowWindowKind::Settings)),
        menu_for(auto)[2] is Separator,
        menu_for(auto)[4] is Separator,
        menu_for(auto)[5] == MenuModel::Item("退出 pardond"@, TrayCmd::Quit),
        gui_connected <==> plan == OpenPlan::Event,
{
}

/// Each pixel keeps its place and its four bytes; the byte of its opacity, the
/// last before, comes first, and red, green and blue follow in their order.
pub proof fn law_pixels(rgba: Seq<u8>, k: int)
    requires
        rgba.len() % 4 == 0,
        0 <= k < rgba.len() / 4,
    ensures
        opacity_first(rgba).len() == rgba.len(),
        opacity_first(rgba).subrange(4 * k, 4 * k + 4) == seq![
            rgba[4 * k + 3],
            rgba[4 * k],
            rgba[4 * k + 1],
            rgba[4 * k + 2],
        ],
{
    let out = opacity_first(rgba);
    assert(out.len() == rgba.len());
    assert(4 * k + 4 <= out.len());
    assert(out.subrange(4 * k, 4 * k + 4) =~= seq![
        rgba[4 * k + 3],
        rgba[4 * k],
        rgba[4 * k + 1],
        rgba[4 * k + 2],
    ]);
}

} // verus!
