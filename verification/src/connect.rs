//! What a session is opened with: its configuration, the size of its desktop, and the
//! channels that it asks for.

use ironrdp::pdu::rdp::client_info::PerformanceFlags;
use vstd::prelude::*;

use crate::monitor::{
    desktop_for, desktop_of, layout_of, layout_usable, parse_monitor_layout, Monitor,
};
use crate::redirect::PendingRedirect;
use crate::text::is_empty_text;
use crate::utf16::{decode, units_of, until_zero, utf16le_to_string};

verus! {

/// No wallpaper is sent.
pub const DISABLE_WALLPAPER: u32 = 0x01;

/// A window is not shown while it is dragged.
pub const DISABLE_FULLWINDOWDRAG: u32 = 0x02;

/// Menus are not animated.
pub const DISABLE_MENUANIMATIONS: u32 = 0x04;

/// No themes are sent.
pub const DISABLE_THEMING: u32 = 0x08;

/// The cursor does not blink.
pub const DISABLE_CURSORSETTINGS: u32 = 0x40;

/// Fonts are smoothed.
pub const ENABLE_FONT_SMOOTHING: u32 = 0x80;

/// The number of an enhanced keyboard of 101 or 102 keys.
pub const KEYBOARD_IBM_ENHANCED: u32 = 4;

/// How many function keys a keyboard has.
pub const FUNCTION_KEYS: u32 = 12;

/// The name that the client gives itself.
pub const CLIENT_NAME: &'static str = "web-rdp-rust";

/// The path that the client gives itself.
pub const CLIENT_DIR: &'static str = "C:\\Windows\\System32\\mstscax.dll";

/// What the connector of `ironrdp` is configured with, as far as it is not empty.
#[derive(Debug, PartialEq, Eq)]
pub struct ConnectorConfig {
    pub username: String,
    pub password: String,
    pub domain: Option<String>,
    pub enable_tls: bool,
    pub enable_credssp: bool,
    pub keyboard_type: u32,
    pub keyboard_functional_keys_count: u32,
    pub width: u16,
    pub height: u16,
    pub client_name: String,
    pub client_dir: String,
    pub enable_server_pointer: bool,
    pub autologon: bool,
    pub enable_audio_playback: bool,
    /// Whether the cursor is drawn into the image; if not, it is an overlay.
    pub pointer_software_rendering: bool,
    pub performance_flags: u32,
    pub monitors: Vec<Monitor>,
    pub support_graphics_pipeline: bool,
}

/// A configuration, as a value.
pub struct ConfigView {
    pub username: Seq<char>,
    pub password: Seq<char>,
    pub domain: Option<Seq<char>>,
    pub enable_tls: bool,
    pub enable_credssp: bool,
    pub keyboard_type: u32,
    pub keyboard_functional_keys_count: u32,
    pub width: u16,
    pub height: u16,
    pub client_name: Seq<char>,
    pub client_dir: Seq<char>,
    pub enable_server_pointer: bool,
    pub autologon: bool,
    pub enable_audio_playback: bool,
    pub pointer_software_rendering: bool,
    pub performance_flags: u32,
    pub monitors: Seq<Monitor>,
    pub support_graphics_pipeline: bool,
}

impl View for ConnectorConfig {
    type V = ConfigView;

    open spec fn view(&self) -> ConfigView {
        ConfigView {
            username: self.username@,
            password: self.password@,
            domain: match self.domain {
                Some(domain) => Some(domain@),
                None => None,
            },
            enable_tls: self.enable_tls,
            enable_credssp: self.enable_credssp,
            keyboard_type: self.keyboard_type,
            keyboard_functional_keys_count: self.keyboard_functional_keys_count,
            width: self.width,
            height: self.height,
            client_name: self.client_name@,
            client_dir: self.client_dir@,
            enable_server_pointer: self.enable_server_pointer,
            autologon: self.autologon,
            enable_audio_playback: self.enable_audio_playback,
            pointer_software_rendering: self.pointer_software_rendering,
            performance_flags: self.performance_flags,
            monitors: self.monitors@,
            support_graphics_pipeline: self.support_graphics_pipeline,
        }
    }
}

/// What the user chooses of the desktop's looks. Each choice costs bandwidth.
#[derive(Debug, Clone, Copy, PartialEq, Eq)]
pub struct Looks {
    pub enable_font_smoothing: bool,
    pub disable_cursor_effects: bool,
    pub allow_wallpaper: bool,
    pub allow_themes: bool,
    pub allow_animations: bool,
}

/// `PerformanceFlags::default` of `ironrdp-pdu`. Claimed: no dragging of windows, no
/// animated menus, smooth fonts.
#[verifier::external_body]
fn default_performance_flags() -> (flags: u32)
    ensures
        flags == 0x86,
{
    PerformanceFlags::default().bits()
}

/// Flags with one more where it is wanted.
pub open spec fn with_flag(flags: u32, wanted: bool, flag: u32) -> u32 {
    if wanted {
        flags | flag
    } else {
        flags
    }
}

/// The flags for what the user chooses.
pub open spec fn performance_flags_of(looks: Looks) -> u32 {
    let always = 0x86u32 | DISABLE_FULLWINDOWDRAG;
    let wallpaper = with_flag(always, !looks.allow_wallpaper, DISABLE_WALLPAPER);
    let themes = with_flag(wallpaper, !looks.allow_themes, DISABLE_THEMING);
    let animations = with_flag(themes, !looks.allow_animations, DISABLE_MENUANIMATIONS);
    let fonts = with_flag(animations, looks.enable_font_smoothing, ENABLE_FONT_SMOOTHING);
    with_flag(fonts, looks.disable_cursor_effects, DISABLE_CURSORSETTINGS)
}

fn added(flags: u32, wanted: bool, flag: u32) -> (out: u32)
    ensures
        out == with_flag(flags, wanted, flag),
{
    if wanted {
        flags | flag
    } else {
        flags
    }
}

/// The flags for what the user chooses.
pub fn performance_flags(looks: Looks) -> (flags: u32)
    ensures
        flags == performance_flags_of(looks),
{
    let always: u32 = default_performance_flags() | DISABLE_FULLWINDOWDRAG;
    let wallpaper: u32 = added(always, !looks.allow_wallpaper, DISABLE_WALLPAPER);
    let themes: u32 = added(wallpaper, !looks.allow_themes, DISABLE_THEMING);
    let animations: u32 = added(themes, !looks.allow_animations, DISABLE_MENUANIMATIONS);
    let fonts: u32 = added(animations, looks.enable_font_smoothing, ENABLE_FONT_SMOOTHING);
    added(fonts, looks.disable_cursor_effects, DISABLE_CURSORSETTINGS)
}

/// The configuration for a user and a desktop.
pub open spec fn config_of(
    username: Seq<char>,
    password: Seq<char>,
    domain: Seq<char>,
    width: u16,
    height: u16,
    monitors: Seq<Monitor>,
    enable_audio: bool,
    looks: Looks,
    enable_gfx: bool,
) -> ConfigView {
    ConfigView {
        username,
        password,
        domain: if domain.len() == 0 {
            None
        } else {
            Some(domain)
        },
        enable_tls: true,
        enable_credssp: true,
        keyboard_type: KEYBOARD_IBM_ENHANCED,
        keyboard_functional_keys_count: FUNCTION_KEYS,
        width,
        height,
        client_name: CLIENT_NAME@,
        client_dir: CLIENT_DIR@,
        enable_server_pointer: true,
        autologon: true,
        enable_audio_playback: enable_audio,
        pointer_software_rendering: false,
        performance_flags: performance_flags_of(looks),
        monitors,
        support_graphics_pipeline: enable_gfx,
    }
}

/// The configuration for a user and a desktop.
pub fn build_connector_config(
    username: String,
    password: String,
    domain: String,
    width: u16,
    height: u16,
    monitors: Vec<Monitor>,
    enable_audio: bool,
    looks: Looks,
    enable_gfx: bool,
) -> (config: ConnectorConfig)
    ensures
        config@ == config_of(
            username@,
            password@,
            domain@,
            width,
            height,
            monitors@,
            enable_audio,
            looks,
            enable_gfx,
        ),
{
    let domain = if is_empty_text(domain.as_str()) {
        None
    } else {
        Some(domain)
    };
    ConnectorConfig {
        username,
        password,
        domain,
        enable_tls: true,
        enable_credssp: true,
        keyboard_type: KEYBOARD_IBM_ENHANCED,
        keyboard_functional_keys_count: FUNCTION_KEYS,
        width,
        height,
        client_name: CLIENT_NAME.to_owned(),
        client_dir: CLIENT_DIR.to_owned(),
        enable_server_pointer: true,
        autologon: true,
        enable_audio_playback: enable_audio,
        pointer_software_rendering: false,
        performance_flags: performance_flags(looks),
        monitors,
        support_graphics_pipeline: enable_gfx,
    }
}

/// What the page asks for, apart from the user.
#[derive(Debug, PartialEq, Eq)]
pub struct SessionOptions {
    pub width: u16,
    pub height: u16,
    /// Five numbers per monitor; empty for a single one.
    pub monitors: Vec<i32>,
    pub enable_opus: bool,
    pub enable_aac: bool,
    pub enable_text_clipboard: bool,
    pub enable_file_clipboard: bool,
    pub enable_audio: bool,
    pub looks: Looks,
}

/// What a session is opened with.
#[derive(Debug, PartialEq, Eq)]
pub struct SessionPlan {
    pub config: ConnectorConfig,
    /// What the page's own canvas shows: left, top, width, height.
    pub surface: (u16, u16, u16, u16),
    /// Whether the static audio channel is asked for.
    pub static_audio: bool,
    /// Whether the channel that carries dynamic channels is asked for.
    pub dynamic_channels: bool,
    /// Whether the graphics pipeline is offered on a dynamic channel.
    pub graphics_pipeline: bool,
    /// Whether audio is offered on a dynamic channel.
    pub dynamic_audio: bool,
}

/// A plan, as a value.
pub struct PlanView {
    pub config: ConfigView,
    pub surface: (u16, u16, u16, u16),
    pub static_audio: bool,
    pub dynamic_channels: bool,
    pub graphics_pipeline: bool,
    pub dynamic_audio: bool,
}

impl View for SessionPlan {
    type V = PlanView;

    open spec fn view(&self) -> PlanView {
        PlanView {
            config: self.config@,
            surface: self.surface,
            static_audio: self.static_audio,
            dynamic_channels: self.dynamic_channels,
            graphics_pipeline: self.graphics_pipeline,
            dynamic_audio: self.dynamic_audio,
        }
    }
}

/// The plan for a user: the desktop is what the monitors make of it, the graphics
/// pipeline is always offered, and audio is offered on both kinds of channel or on none.
pub open spec fn plan_of(
    options: SessionOptions,
    username: Seq<char>,
    password: Seq<char>,
    domain: Seq<char>,
) -> PlanView {
    let (size, surface) = desktop_of(options.monitors@, options.width, options.height);
    PlanView {
        config: config_of(
            username,
            password,
            domain,
            size.0,
            size.1,
            layout_of(options.monitors@),
            options.enable_audio,
            options.looks,
            true,
        ),
        surface,
        static_audio: options.enable_audio,
        dynamic_channels: true,
        graphics_pipeline: true,
        dynamic_audio: options.enable_audio,
    }
}

/// The plan for a user.
pub fn plan_session(options: &SessionOptions, username: String, password: String, domain: String) -> (plan: SessionPlan)
    requires
        layout_usable(options.monitors@),
    ensures
        plan@ == plan_of(*options, username@, password@, domain@),
{
    let (size, surface): ((u16, u16), (u16, u16, u16, u16)) = desktop_for(
        options.monitors.as_slice(),
        options.width,
        options.height,
    );
    let enable_gfx = true;
    let monitors = parse_monitor_layout(options.monitors.as_slice());
    let config = build_connector_config(
        username,
        password,
        domain,
        size.0,
        size.1,
        monitors,
        options.enable_audio,
        options.looks,
        enable_gfx,
    );
    SessionPlan {
        config,
        surface,
        static_audio: options.enable_audio,
        dynamic_channels: enable_gfx || options.enable_audio,
        graphics_pipeline: enable_gfx,
        dynamic_audio: options.enable_audio,
    }
}

/// The text of a field of a redirection packet, up to a zero unit.
pub open spec fn packet_text(field: Seq<u8>) -> Seq<char> {
    decode(until_zero(units_of(field)))
}

/// The plan for a session that a server has redirected: the user is the one of the
/// packet. The password stays empty, for the handover authenticates before. `None`
/// where no redirection waits; one that waits is used up.
pub fn plan_redirected(options: &SessionOptions, slot: &mut Option<PendingRedirect>) -> (plan: Option<
    (SessionPlan, PendingRedirect),
>)
    requires
        layout_usable(options.monitors@),
    ensures
        *final(slot) is None,
        match *old(slot) {
            Some(pending) => plan is Some && (plan->0).1 == pending && (plan->0).0@ == plan_of(
                *options,
                packet_text(pending.user_name@),
                Seq::empty(),
                packet_text(pending.domain@),
            ),
            None => plan is None,
        },
{
    let pending = match slot.take() {
        Some(pending) => pending,
        None => return None,
    };
    let username = utf16le_to_string(pending.user_name.as_slice());
    let domain = utf16le_to_string(pending.domain.as_slice());
    let plan = plan_session(options, username, String::new(), domain);
    Some((plan, pending))
}

/// The state of a WebSocket.
#[derive(Debug, Clone, Copy, PartialEq, Eq)]
pub enum SocketState {
    Connecting,
    Open,
    Closing,
    Closed,
}

/// What is done about a WebSocket that is being opened.
#[derive(Debug, Clone, Copy, PartialEq, Eq)]
pub enum SocketStep {
    Wait,
    Ready,
    Fail,
}

/// What is done about a WebSocket that is being opened: one that closes has failed.
pub fn socket_step(state: SocketState) -> (step: SocketStep)
    ensures
        step == (match state {
            SocketState::Connecting => SocketStep::Wait,
            SocketState::Open => SocketStep::Ready,
            SocketState::Closing => SocketStep::Fail,
            SocketState::Closed => SocketStep::Fail,
        }),
{
    match state {
        SocketState::Connecting => SocketStep::Wait,
        SocketState::Open => SocketStep::Ready,
        SocketState::Closing | SocketState::Closed => SocketStep::Fail,
    }
}

/// Without audio no audio channel of either kind is asked for, and the server is told.
pub proof fn law_silence_is_silence(
    options: SessionOptions,
    username: Seq<char>,
    password: Seq<char>,
    domain: Seq<char>,
)
    requires
        !options.enable_audio,
    ensures
        ({
            let plan = plan_of(options, username, password, domain);
            !plan.static_audio && !plan.dynamic_audio && !plan.config.enable_audio_playback
        }),
{
}

/// What the user turns off is turned off, whatever else is chosen; dragging of windows
/// is off always.
pub proof fn law_what_is_refused_is_disabled(looks: Looks)
    ensures
        performance_flags_of(looks) & DISABLE_FULLWINDOWDRAG == DISABLE_FULLWINDOWDRAG,
        !looks.allow_wallpaper ==> performance_flags_of(looks) & DISABLE_WALLPAPER == DISABLE_WALLPAPER,
        looks.allow_wallpaper ==> performance_flags_of(looks) & DISABLE_WALLPAPER == 0,
        !looks.allow_themes ==> performance_flags_of(looks) & DISABLE_THEMING == DISABLE_THEMING,
        looks.allow_themes ==> performance_flags_of(looks) & DISABLE_THEMING == 0,
        !looks.allow_animations ==> performance_flags_of(looks) & DISABLE_MENUANIMATIONS == DISABLE_MENUANIMATIONS,
        looks.disable_cursor_effects ==> performance_flags_of(looks) & DISABLE_CURSORSETTINGS
            == DISABLE_CURSORSETTINGS,
        !looks.disable_cursor_effects ==> performance_flags_of(looks) & DISABLE_CURSORSETTINGS == 0,
        looks.enable_font_smoothing ==> performance_flags_of(looks) & ENABLE_FONT_SMOOTHING == ENABLE_FONT_SMOOTHING,
{
    let w: u32 = with_flag(0x86u32 | DISABLE_FULLWINDOWDRAG, !looks.allow_wallpaper, DISABLE_WALLPAPER);
    let t: u32 = with_flag(w, !looks.allow_themes, DISABLE_THEMING);
    let a: u32 = with_flag(t, !looks.allow_animations, DISABLE_MENUANIMATIONS);
    let f: u32 = with_flag(a, looks.enable_font_smoothing, ENABLE_FONT_SMOOTHING);
    let all: u32 = with_flag(f, looks.disable_cursor_effects, DISABLE_CURSORSETTINGS);
    assert(all == performance_flags_of(looks));
    assert(0x86u32 | 2 == 0x86) by (bit_vector);
    let (wallpaper, themes, animations, fonts, cursor) = (
        looks.allow_wallpaper,
        looks.allow_themes,
        looks.allow_animations,
        looks.enable_font_smoothing,
        looks.disable_cursor_effects,
    );
    assert({
        &&& all & 2 == 2
        &&& !wallpaper ==> all & 1 == 1
        &&& wallpaper ==> all & 1 == 0
        &&& !themes ==> all & 8 == 8
        &&& themes ==> all & 8 == 0
        &&& !animations ==> all & 4 == 4
        &&& cursor ==> all & 0x40 == 0x40
        &&& !cursor ==> all & 0x40 == 0
        &&& fonts ==> all & 0x80 == 0x80
    }) by (bit_vector)
        requires
            w == (if !wallpaper { 0x86u32 | 1 } else { 0x86u32 }),
            t == (if !themes { w | 8 } else { w }),
            a == (if !animations { t | 4 } else { t }),
            f == (if fonts { a | 0x80 } else { a }),
            all == (if cursor { f | 0x40 } else { f }),
    ;
}

/// The flags for what the user chooses are those that the client sends always, and one more for
/// no wallpaper, no themes and no cursor effects each.
pub proof fn law_flags_add_up(looks: Looks)
    ensures
        performance_flags_of(looks) == 0x86 + (if looks.allow_wallpaper {
            0int
        } else {
            0x01
        }) + (if looks.allow_themes {
            0int
        } else {
            0x08
        }) + (if looks.disable_cursor_effects {
            0x40int
        } else {
            0
        }),
{
    let w: u32 = with_flag(0x86u32 | DISABLE_FULLWINDOWDRAG, !looks.allow_wallpaper, DISABLE_WALLPAPER);
    let t: u32 = with_flag(w, !looks.allow_themes, DISABLE_THEMING);
    let a: u32 = with_flag(t, !looks.allow_animations, DISABLE_MENUANIMATIONS);
    let f: u32 = with_flag(a, looks.enable_font_smoothing, ENABLE_FONT_SMOOTHING);
    let all: u32 = with_flag(f, looks.disable_cursor_effects, DISABLE_CURSORSETTINGS);
    assert(all == performance_flags_of(looks));
    assert(0x86u32 | 2 == 0x86) by (bit_vector);
    let (wallpaper, themes, animations, fonts, cursor) = (
        looks.allow_wallpaper,
        looks.allow_themes,
        looks.allow_animations,
        looks.enable_font_smoothing,
        looks.disable_cursor_effects,
    );
    assert(all == 0x86 + (if wallpaper { 0u32 } else { 1u32 }) + (if themes { 0u32 } else { 8u32 }) + (if cursor {
        0x40u32
    } else {
        0u32
    })) by (bit_vector)
        requires
            w == (if !wallpaper { 0x86u32 | 1 } else { 0x86u32 }),
            t == (if !themes { w | 8 } else { w }),
            a == (if !animations { t | 4 } else { t }),
            f == (if fonts { a | 0x80 } else { a }),
            all == (if cursor { f | 0x40 } else { f }),
    ;
}

/// A session is opened for the user and with the password and domain that were given, on the
/// desktop that was asked for or that the monitors make, with TLS and authentication, with the
/// cursor as an overlay of the page's own, with the graphics pipeline, and with audio on both
/// kinds of channel exactly where it was asked for.
pub proof fn law_plan_is_what_was_asked_for(
    options: SessionOptions,
    username: Seq<char>,
    password: Seq<char>,
    domain: Seq<char>,
)
    ensures
        ({
            let plan = plan_of(options, username, password, domain);
            let config = plan.config;
            let (size, surface) = desktop_of(options.monitors@, options.width, options.height);
            &&& config.username == username
            &&& config.password == password
            &&& domain.len() > 0 ==> config.domain == Some(domain)
            &&& domain.len() == 0 ==> config.domain is None
            &&& (config.width, config.height) == size
            &&& config.monitors == layout_of(options.monitors@)
            &&& plan.surface == surface
            &&& options.monitors@.len() < 5 ==> config.width == options.width && config.height == options.height
                && config.monitors.len() == 0 && plan.surface == (0u16, 0u16, options.width, options.height)
            &&& config.enable_tls && config.enable_credssp && config.autologon
            &&& config.enable_server_pointer && !config.pointer_software_rendering
            &&& config.support_graphics_pipeline && plan.graphics_pipeline && plan.dynamic_channels
            &&& config.enable_audio_playback == options.enable_audio
            &&& plan.static_audio == options.enable_audio
            &&& plan.dynamic_audio == options.enable_audio
            &&& config.performance_flags == performance_flags_of(options.looks)
            &&& config.keyboard_type == 4
            &&& config.keyboard_functional_keys_count == 12
            &&& config.client_name == "web-rdp-rust"@
            &&& config.client_dir == "C:\\Windows\\System32\\mstscax.dll"@
        }),
{
    crate::monitor::law_desktop_follows_the_layout(options.monitors@, options.width, options.height);
}

/// The user and the domain of a redirection packet are texts in UTF-16 that end at a zero unit.
pub proof fn law_packet_text_is_read(text: Seq<char>, after: Seq<u16>)
    requires
        forall|i: int| 0 <= i < text.len() ==> text[i] != '\0',
    ensures
        packet_text(crate::utf16::bytes_of(crate::utf16::encode(text) + seq![0u16] + after)) == text,
        packet_text(crate::utf16::text_bytes(text)) == text,
{
    crate::utf16::law_units_of_bytes(crate::utf16::encode(text) + seq![0u16] + after);
    crate::utf16::law_terminated_round_trip(text, after);
    crate::utf16::law_units_of_bytes(crate::utf16::encode(text));
    crate::utf16::law_unterminated_round_trip(text);
}

} // verus!
