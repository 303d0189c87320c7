//! A session: the handle that the page holds, and the loop that runs it.
//!
//! The handle turns what the user does into events for the loop. The loop hands events
//! and the server's PDUs to `ironrdp`, and acts on what comes out.

use ironrdp::input::Database;
use vstd::prelude::*;

use crate::canvas::Canvas;
use crate::clipboard::{ClipboardFormat, FileContentsRequest, FileDescriptor};
use crate::framed::Action;
use crate::gfx::{codec_name, VideoCodec};
use crate::input::{
    apply_button, apply_key, apply_motion, button_step, buttons_down, key_step, keys_down, motion_step, new_database,
    pointer_at, ButtonOp, InputPdu, KeyOp, MotionOp, BUTTONS,
};
use crate::monitor::{
    combined_desktop_size, dc_layout, desktop_size, edges_countable, layout_fits, layout_of, monitor_count,
    parse_dc_monitor_layout, parse_monitor_layout, DcMonitor,
};
use crate::pixels::InclusiveRectangle;
use crate::redirect::{PendingRedirect, PendingView, RedirectionPacket};
use crate::text::{chars_of, find_from, lemma_place_of, occurs};

verus! {

/// How many bytes have come and gone.
#[derive(Debug, Clone, Copy, PartialEq, Eq)]
pub struct SessionStats {
    pub rx_bytes: u64,
    pub tx_bytes: u64,
}

impl SessionStats {
    pub fn new() -> (stats: Self)
        ensures
            stats == (SessionStats { rx_bytes: 0, tx_bytes: 0 }),
    {
        SessionStats { rx_bytes: 0, tx_bytes: 0 }
    }

    /// Counts bytes that have come.
    pub fn count_received(&mut self, len: usize)
        requires
            old(self).rx_bytes + len <= u64::MAX,
        ensures
            *final(self) == (SessionStats { rx_bytes: (old(self).rx_bytes + len) as u64, ..*old(self) }),
    {
        self.rx_bytes = self.rx_bytes + len as u64;
    }

    /// Counts bytes that are sent.
    pub fn count_sent(&mut self, len: usize)
        requires
            old(self).tx_bytes + len <= u64::MAX,
        ensures
            *final(self) == (SessionStats { tx_bytes: (old(self).tx_bytes + len) as u64, ..*old(self) }),
    {
        self.tx_bytes = self.tx_bytes + len as u64;
    }
}

/// A message for the clipboard channel.
#[derive(Debug, PartialEq, Eq)]
pub enum ClipboardMessage {
    InitiateCopy(Vec<ClipboardFormat>),
    InitiatePaste(u32),
    /// Contents; none is an error.
    FormatData(Option<Vec<u8>>),
    FileContentsRequest(FileContentsRequest),
    /// A part of a file; none is an error.
    FileContentsResponse { stream_id: u32, data: Option<Vec<u8>> },
}

/// What the loop is to deal with, apart from the server's PDUs.
#[derive(Debug, PartialEq, Eq)]
pub enum InputEvent {
    FastPath(Vec<InputPdu>),
    Resize { width: u16, height: u16 },
    /// Five numbers per monitor.
    MonitorLayout { monitors: Vec<i32> },
    Cliprdr(ClipboardMessage),
    /// Offer files to the server.
    FileCopy(Vec<FileDescriptor>),
    Terminate,
}

/// The handle of a session.
pub struct Session {
    pub input_db: Database,
    pub desktop_width: u16,
    pub desktop_height: u16,
    pub stats: SessionStats,
    /// One canvas per monitor.
    pub surfaces: Vec<Canvas>,
    pub video_codec: VideoCodec,
}

/// Whether two handles agree in all but the state of keyboard and mouse.
pub open spec fn same_but_input(a: Session, b: Session) -> bool {
    &&& a.desktop_width == b.desktop_width
    &&& a.desktop_height == b.desktop_height
    &&& a.stats == b.stats
    &&& a.surfaces == b.surfaces
    &&& a.video_codec == b.video_codec
}

/// The operation that a key event stands for.
pub open spec fn key_op(scancode: u8, is_pressed: bool, is_extended: bool) -> KeyOp {
    if is_pressed {
        KeyOp::Pressed { extended: is_extended, code: scancode }
    } else {
        KeyOp::Released { extended: is_extended, code: scancode }
    }
}

/// The operation that a button event stands for.
pub open spec fn button_op(button: u8, is_pressed: bool) -> ButtonOp {
    if is_pressed {
        ButtonOp::Pressed(button)
    } else {
        ButtonOp::Released(button)
    }
}

impl Session {
    /// The handle of a session whose desktop the page's own canvas shows.
    pub fn new(desktop_width: u16, desktop_height: u16, surface: Canvas) -> (session: Self)
        ensures
            session.desktop_width == desktop_width,
            session.desktop_height == desktop_height,
            session.stats == (SessionStats { rx_bytes: 0, tx_bytes: 0 }),
            session.surfaces@ == seq![surface],
            session.video_codec == VideoCodec::Rfx,
            keys_down(session.input_db) == Set::<(bool, u8)>::empty(),
            buttons_down(session.input_db) == Set::<u8>::empty(),
            pointer_at(session.input_db) == (0u16, 0u16),
    {
        let mut surfaces: Vec<Canvas> = Vec::new();
        surfaces.push(surface);
        assert(surfaces@ =~= seq![surface]);
        Session {
            input_db: new_database(),
            desktop_width,
            desktop_height,
            stats: SessionStats::new(),
            surfaces,
            video_codec: VideoCodec::Rfx,
        }
    }

    /// A key goes down or up.
    pub fn send_keyboard(&mut self, scancode: u8, is_pressed: bool, is_extended: bool) -> (event: InputEvent)
        ensures
            event matches InputEvent::FastPath(events) && (keys_down(final(self).input_db), events@) == key_step(
                keys_down(old(self).input_db),
                key_op(scancode, is_pressed, is_extended),
            ),
            buttons_down(final(self).input_db) == buttons_down(old(self).input_db),
            pointer_at(final(self).input_db) == pointer_at(old(self).input_db),
            same_but_input(*final(self), *old(self)),
    {
        let op = if is_pressed {
            KeyOp::Pressed { extended: is_extended, code: scancode }
        } else {
            KeyOp::Released { extended: is_extended, code: scancode }
        };
        InputEvent::FastPath(apply_key(&mut self.input_db, op))
    }

    /// The pointer moves.
    pub fn send_mouse_move(&mut self, x: u16, y: u16) -> (event: InputEvent)
        ensures
            event matches InputEvent::FastPath(events) && (pointer_at(final(self).input_db), events@) == motion_step(
                pointer_at(old(self).input_db),
                MotionOp::Move { x, y },
            ),
            buttons_down(final(self).input_db) == buttons_down(old(self).input_db),
            keys_down(final(self).input_db) == keys_down(old(self).input_db),
            same_but_input(*final(self), *old(self)),
    {
        InputEvent::FastPath(apply_motion(&mut self.input_db, MotionOp::Move { x, y }))
    }

    /// The pointer moves, and the left, middle or right button goes down or up there. Any
    /// other button, such as a browser's back and forward, is not forwarded and moves
    /// nothing.
    pub fn send_mouse_button(&mut self, button: u8, is_pressed: bool, x: u16, y: u16) -> (event: Option<InputEvent>)
        ensures
            keys_down(final(self).input_db) == keys_down(old(self).input_db),
            same_but_input(*final(self), *old(self)),
            ({
                let (at, moved) = motion_step(pointer_at(old(self).input_db), MotionOp::Move { x, y });
                let (down, pressed) = button_step(
                    buttons_down(old(self).input_db),
                    at,
                    button_op(button, is_pressed),
                );
                if button < BUTTONS {
                    &&& event matches Some(InputEvent::FastPath(events)) && events@ == moved + pressed
                    &&& pointer_at(final(self).input_db) == at
                    &&& buttons_down(final(self).input_db) == down
                } else {
                    event is None && *final(self) == *old(self)
                }
            }),
    {
        if button >= BUTTONS {
            return None;
        }
        let op = if is_pressed {
            ButtonOp::Pressed(button)
        } else {
            ButtonOp::Released(button)
        };
        let mut events = apply_motion(&mut self.input_db, MotionOp::Move { x, y });
        let mut pressed = apply_button(&mut self.input_db, op);
        events.append(&mut pressed);
        Some(InputEvent::FastPath(events))
    }

    /// The wheel turns.
    pub fn send_mouse_wheel(&mut self, horizontal: bool, delta: i16) -> (event: InputEvent)
        ensures
            event matches InputEvent::FastPath(events) && (pointer_at(final(self).input_db), events@) == motion_step(
                pointer_at(old(self).input_db),
                MotionOp::Wheel { is_vertical: !horizontal, rotation_units: delta },
            ),
            buttons_down(final(self).input_db) == buttons_down(old(self).input_db),
            keys_down(final(self).input_db) == keys_down(old(self).input_db),
            same_but_input(*final(self), *old(self)),
    {
        InputEvent::FastPath(
            apply_motion(
                &mut self.input_db,
                MotionOp::Wheel { is_vertical: !horizontal, rotation_units: delta },
            ),
        )
    }

    /// The width of the desktop.
    pub fn width(&self) -> (width: u16)
        ensures
            width == self.desktop_width,
    {
        self.desktop_width
    }

    /// The height of the desktop.
    pub fn height(&self) -> (height: u16)
        ensures
            height == self.desktop_height,
    {
        self.desktop_height
    }

    /// How many bytes have come from the server.
    pub fn rx_bytes(&self) -> (bytes: u64)
        ensures
            bytes == self.stats.rx_bytes,
    {
        self.stats.rx_bytes
    }

    /// How many bytes have been sent to the server.
    pub fn tx_bytes(&self) -> (bytes: u64)
        ensures
            bytes == self.stats.tx_bytes,
    {
        self.stats.tx_bytes
    }

    /// The name of the video codec in use.
    pub fn video_codec(&self) -> (name: String)
        ensures
            name@ == codec_name(self.video_codec),
    {
        self.video_codec.as_str().to_owned()
    }

    /// Asks for another size of the desktop.
    pub fn resize(&mut self, width: u16, height: u16) -> (event: InputEvent)
        ensures
            event == (InputEvent::Resize { width, height }),
            *final(self) == (Session { desktop_width: width, desktop_height: height, ..*old(self) }),
    {
        self.desktop_width = width;
        self.desktop_height = height;
        InputEvent::Resize { width, height }
    }

    /// Asks for another layout of monitors; an empty one is ignored.
    pub fn apply_monitor_layout(&mut self, monitors: Vec<i32>) -> (event: Option<InputEvent>)
        requires
            layout_fits(monitors@),
            edges_countable(layout_of(monitors@)),
        ensures
            if monitors@.len() == 0 {
                event is None && *final(self) == *old(self)
            } else {
                let size = desktop_size(layout_of(monitors@));
                &&& event == Some(InputEvent::MonitorLayout { monitors })
                &&& *final(self) == (Session { desktop_width: size.0, desktop_height: size.1, ..*old(self) })
            },
    {
        if monitors.len() == 0 {
            return None;
        }
        let layout = parse_monitor_layout(monitors.as_slice());
        let (width, height): (u16, u16) = combined_desktop_size(layout.as_slice());
        self.desktop_width = width;
        self.desktop_height = height;
        Some(InputEvent::MonitorLayout { monitors })
    }

    /// Asks for the end of the session.
    pub fn shutdown(&self) -> (event: InputEvent)
        ensures
            event == InputEvent::Terminate,
    {
        InputEvent::Terminate
    }

    /// Hands a message to the clipboard channel.
    pub fn send_cliprdr_message(&self, message: ClipboardMessage) -> (event: InputEvent)
        ensures
            event == InputEvent::Cliprdr(message),
    {
        InputEvent::Cliprdr(message)
    }

    /// Offers files to the server.
    pub fn send_file_copy(&self, files: Vec<FileDescriptor>) -> (event: InputEvent)
        ensures
            event == InputEvent::FileCopy(files),
    {
        InputEvent::FileCopy(files)
    }

    /// Takes all canvases away.
    pub fn clear_surfaces(&mut self)
        ensures
            final(self).surfaces@ == Seq::<Canvas>::empty(),
            *final(self) == (Session { surfaces: final(self).surfaces, ..*old(self) }),
    {
        self.surfaces = Vec::new();
        assert(self.surfaces@ =~= Seq::<Canvas>::empty());
    }

    /// Adds a canvas that shows a rectangle of the desktop.
    pub fn add_surface(&mut self, origin_x: u16, origin_y: u16, width: u16, height: u16)
        ensures
            final(self).surfaces@.len() == old(self).surfaces@.len() + 1,
            final(self).surfaces@.drop_last() == old(self).surfaces@,
            ({
                let canvas = final(self).surfaces@.last();
                &&& canvas.origin_x == origin_x
                &&& canvas.origin_y == origin_y
                &&& canvas.width == width
                &&& canvas.height == height
                &&& canvas.rgba_buf@ == Seq::<u8>::empty()
            }),
            *final(self) == (Session { surfaces: final(self).surfaces, ..*old(self) }),
    {
        self.surfaces.push(Canvas::new(origin_x, origin_y, width, height));
        assert(self.surfaces@.drop_last() =~= old(self).surfaces@);
    }
}

// ---------------------------------------------------------------------------
// The loop: events
// ---------------------------------------------------------------------------
/// How a session ends, for the page to decide whether to connect again.
#[derive(Debug, Clone, Copy, PartialEq, Eq)]
pub enum EndReason {
    /// Another user has taken the session over.
    SessionReplaced,
    UserDisconnect,
    ServerDisconnect,
    /// The server hands the session over to another one.
    Redirected,
    ConnectionLost,
}

/// The tag of a reason.
pub open spec fn end_tag(reason: EndReason) -> Seq<char> {
    match reason {
        EndReason::SessionReplaced => "session_replaced"@,
        EndReason::UserDisconnect => "user_disconnect"@,
        EndReason::ServerDisconnect => "server_disconnect"@,
        EndReason::Redirected => "redirected"@,
        EndReason::ConnectionLost => "connection_lost"@,
    }
}

impl EndReason {
    /// The tag under which the page is told.
    pub fn as_str(self) -> (tag: &'static str)
        ensures
            tag@ == end_tag(self),
    {
        match self {
            EndReason::SessionReplaced => "session_replaced",
            EndReason::UserDisconnect => "user_disconnect",
            EndReason::ServerDisconnect => "server_disconnect",
            EndReason::Redirected => "redirected",
            EndReason::ConnectionLost => "connection_lost",
        }
    }
}

/// Work that `ironrdp` is to do.
#[derive(Debug, PartialEq, Eq)]
pub enum LoopCommand {
    ProcessPdu { action: Action, payload: Vec<u8> },
    ProcessInput(Vec<InputPdu>),
    EncodeResize { width: u32, height: u32 },
    /// Make an image of the new size, then encode the layout.
    EncodeLayout { entries: Vec<DcMonitor>, width: u16, height: u16 },
    Clipboard(ClipboardMessage),
    FileCopy(Vec<FileDescriptor>),
    Shutdown,
}

/// The kind of work that is under way.
#[derive(Debug, Clone, Copy, PartialEq, Eq)]
pub enum Work {
    Pdu,
    Input,
    Layout,
    Clipboard,
    Shutdown,
}

/// The monitors that a layout is left with.
pub open spec fn allowed_monitors(monitors: Seq<i32>) -> Seq<DcMonitor> {
    dc_layout(monitors, monitor_count(monitors) as int)
}

/// The work that an event asks for. A layout none of whose monitors is allowed asks for
/// none.
pub open spec fn work_of(event: InputEvent) -> Option<Work> {
    match event {
        InputEvent::FastPath(_) => Some(Work::Input),
        InputEvent::Resize { .. } => Some(Work::Layout),
        InputEvent::MonitorLayout { monitors } => if allowed_monitors(monitors@).len() == 0 {
            None
        } else {
            Some(Work::Layout)
        },
        InputEvent::Cliprdr(_) => Some(Work::Clipboard),
        InputEvent::FileCopy(_) => Some(Work::Clipboard),
        InputEvent::Terminate => Some(Work::Shutdown),
    }
}

/// Whether a command is the one that an event asks for.
pub open spec fn commands(event: InputEvent, command: LoopCommand) -> bool {
    match event {
        InputEvent::FastPath(events) => command == LoopCommand::ProcessInput(events),
        InputEvent::Resize { width, height } => command == (LoopCommand::EncodeResize {
            width: width as u32,
            height: height as u32,
        }),
        InputEvent::MonitorLayout { monitors } => command matches LoopCommand::EncodeLayout {
            entries,
            width,
            height,
        } && entries@ == allowed_monitors(monitors@) && (width, height) == desktop_size(layout_of(monitors@)),
        InputEvent::Cliprdr(message) => command == LoopCommand::Clipboard(message),
        InputEvent::FileCopy(files) => command == LoopCommand::FileCopy(files),
        InputEvent::Terminate => command == LoopCommand::Shutdown,
    }
}

/// Whether the layout in an event can be counted.
pub open spec fn event_fits(event: InputEvent) -> bool {
    event matches InputEvent::MonitorLayout { monitors } ==> layout_fits(monitors@) && edges_countable(
        layout_of(monitors@),
    )
}

/// The work that an event asks for, and its kind.
fn command_for(event: InputEvent) -> (command: Option<(Work, LoopCommand)>)
    requires
        event_fits(event),
    ensures
        match command {
            Some(c) => work_of(event) == Some(c.0) && commands(event, c.1),
            None => work_of(event) is None,
        },
{
    match event {
        InputEvent::FastPath(events) => Some((Work::Input, LoopCommand::ProcessInput(events))),
        InputEvent::Resize { width, height } => Some(
            (Work::Layout, LoopCommand::EncodeResize { width: width as u32, height: height as u32 }),
        ),
        InputEvent::MonitorLayout { monitors } => {
            let entries = parse_dc_monitor_layout(monitors.as_slice());
            if entries.len() == 0 {
                None
            } else {
                let layout = parse_monitor_layout(monitors.as_slice());
                let (width, height): (u16, u16) = combined_desktop_size(layout.as_slice());
                Some((Work::Layout, LoopCommand::EncodeLayout { entries, width, height }))
            }
        }
        InputEvent::Cliprdr(message) => Some((Work::Clipboard, LoopCommand::Clipboard(message))),
        InputEvent::FileCopy(files) => Some((Work::Clipboard, LoopCommand::FileCopy(files))),
        InputEvent::Terminate => Some((Work::Shutdown, LoopCommand::Shutdown)),
    }
}

// ---------------------------------------------------------------------------
// The loop: results
// ---------------------------------------------------------------------------
/// Why the server has ended a session.
#[derive(Debug, PartialEq, Eq)]
pub enum DisconnectReason {
    UserInitiated,
    ServerInitiated,
    Other(String),
}

/// A cursor of the server.
#[derive(Debug, PartialEq, Eq)]
pub struct PointerImage {
    pub width: u16,
    pub height: u16,
    pub hotspot_x: u16,
    pub hotspot_y: u16,
    pub rgba: Vec<u8>,
}

/// What the session's active stage puts out.
#[derive(Debug, PartialEq, Eq)]
pub enum StageOutput {
    ResponseFrame(Vec<u8>),
    GraphicsUpdate(InclusiveRectangle),
    PointerDefault,
    PointerHidden,
    PointerBitmap(PointerImage),
    Terminate(DisconnectReason),
    Redirect(RedirectionPacket),
    Other,
}

/// What came of some work.
#[derive(Debug, PartialEq, Eq)]
pub enum WorkResult {
    Outputs(Vec<StageOutput>),
    Frame(Vec<u8>),
    /// The server does not offer it.
    Unavailable,
    /// A clipboard message could not be made.
    Refused,
    Failed,
}

/// Why the loop breaks off.
#[derive(Debug, Clone, Copy, PartialEq, Eq)]
pub enum LoopError {
    ReadFailed,
    InputFailed,
    ClipboardEncodeFailed,
    ShutdownFailed,
    OutOfOrder,
}

/// The error that a failure is, where it ends the session. A PDU that cannot be
/// processed is ignored, and so is a size or a layout that cannot be encoded.
pub open spec fn fatal(work: Work) -> Option<LoopError> {
    match work {
        Work::Pdu => None,
        Work::Input => Some(LoopError::InputFailed),
        Work::Layout => None,
        Work::Clipboard => Some(LoopError::ClipboardEncodeFailed),
        Work::Shutdown => Some(LoopError::ShutdownFailed),
    }
}

/// What there is to act on after some work.
pub open spec fn outcome(work: Work, result: WorkResult) -> Result<Seq<StageOutput>, LoopError> {
    match result {
        WorkResult::Outputs(outputs) => Ok(outputs@),
        WorkResult::Frame(frame) => Ok(seq![StageOutput::ResponseFrame(frame)]),
        WorkResult::Unavailable => Ok(seq![]),
        WorkResult::Refused => Ok(seq![]),
        WorkResult::Failed => match fatal(work) {
            Some(e) => Err(e),
            None => Ok(seq![]),
        },
    }
}

fn fatal_of(work: Work) -> (error: Option<LoopError>)
    ensures
        error == fatal(work),
{
    match work {
        Work::Pdu => None,
        Work::Input => Some(LoopError::InputFailed),
        Work::Layout => None,
        Work::Clipboard => Some(LoopError::ClipboardEncodeFailed),
        Work::Shutdown => Some(LoopError::ShutdownFailed),
    }
}

/// What there is to act on after some work.
pub fn outputs_after(work: Work, result: WorkResult) -> (outputs: Result<Vec<StageOutput>, LoopError>)
    ensures
        match outputs {
            Ok(o) => outcome(work, result) == Ok::<Seq<StageOutput>, LoopError>(o@),
            Err(e) => outcome(work, result) == Err::<Seq<StageOutput>, LoopError>(e),
        },
{
    let mut outputs: Vec<StageOutput> = Vec::new();
    assert(outputs@ =~= seq![]);
    match result {
        WorkResult::Outputs(given) => Ok(given),
        WorkResult::Frame(frame) => {
            let ghost sent = frame;
            outputs.push(StageOutput::ResponseFrame(frame));
            assert(outputs@ =~= seq![StageOutput::ResponseFrame(sent)]);
            Ok(outputs)
        }
        WorkResult::Unavailable => Ok(outputs),
        WorkResult::Refused => Ok(outputs),
        WorkResult::Failed => match fatal_of(work) {
            Some(e) => Err(e),
            None => Ok(outputs),
        },
    }
}

/// What is done about an output.
#[derive(Debug, PartialEq, Eq)]
pub enum LoopAction {
    Send(Vec<u8>),
    /// Draw a region of the image on every canvas.
    Paint(InclusiveRectangle),
    /// Show the browser's own cursor.
    DefaultCursor,
    HideCursor,
    CustomCursor(PointerImage),
    End(EndReason),
}

/// How a session ends that the server ends. One that was taken over by another user, or
/// that the server ended for a reason of its own, must not be taken back.
pub open spec fn end_of(reason: DisconnectReason) -> EndReason {
    match reason {
        DisconnectReason::UserInitiated => EndReason::UserDisconnect,
        DisconnectReason::ServerInitiated => EndReason::ServerDisconnect,
        DisconnectReason::Other(description) => if occurs(description@, "Another user connected"@) {
            EndReason::SessionReplaced
        } else {
            EndReason::ServerDisconnect
        },
    }
}

/// What is done about an output. Once the graphics pipeline draws, the image is not
/// what the user sees, and its updates are not drawn.
pub open spec fn action_of(output: StageOutput, egfx_active: bool) -> Option<LoopAction> {
    match output {
        StageOutput::ResponseFrame(frame) => Some(LoopAction::Send(frame)),
        StageOutput::GraphicsUpdate(region) => if egfx_active {
            None
        } else {
            Some(LoopAction::Paint(region))
        },
        StageOutput::PointerDefault => Some(LoopAction::DefaultCursor),
        StageOutput::PointerHidden => Some(LoopAction::HideCursor),
        StageOutput::PointerBitmap(image) => Some(LoopAction::CustomCursor(image)),
        StageOutput::Terminate(reason) => Some(LoopAction::End(end_of(reason))),
        StageOutput::Redirect(_) => Some(LoopAction::End(EndReason::Redirected)),
        StageOutput::Other => None,
    }
}

/// Whether an output ends the session.
pub open spec fn is_end(output: StageOutput) -> bool {
    output is Terminate || output is Redirect
}

/// What is done about outputs, in order: nothing after one that ends the session.
pub open spec fn actions_of(outputs: Seq<StageOutput>, egfx_active: bool) -> Seq<LoopAction>
    decreases outputs.len(),
{
    if outputs.len() == 0 {
        seq![]
    } else {
        (match action_of(outputs[0], egfx_active) {
            Some(action) => seq![action],
            None => seq![],
        }) + (if is_end(outputs[0]) {
            seq![]
        } else {
            actions_of(outputs.skip(1), egfx_active)
        })
    }
}

/// The redirection that outputs end with.
pub open spec fn redirect_in(outputs: Seq<StageOutput>) -> Option<RedirectionPacket>
    decreases outputs.len(),
{
    if outputs.len() == 0 {
        None
    } else if is_end(outputs[0]) {
        match outputs[0] {
            StageOutput::Redirect(packet) => Some(packet),
            _ => None,
        }
    } else {
        redirect_in(outputs.skip(1))
    }
}

/// What is kept of a redirection packet.
pub open spec fn kept_of(packet: RedirectionPacket) -> PendingView {
    PendingView {
        routing_token: crate::redirect::field_view(packet.load_balance_info),
        user_name: crate::redirect::field_bytes(packet.user_name),
        domain: crate::redirect::field_bytes(packet.domain),
        password: crate::redirect::field_bytes(packet.password),
        redirection_guid: crate::redirect::field_bytes(packet.redirection_guid),
        target_certificate: crate::redirect::field_view(packet.target_certificate),
    }
}

/// How a session ends that the server ends.
pub fn classify_end(reason: DisconnectReason) -> (end: EndReason)
    ensures
        end == end_of(reason),
{
    match reason {
        DisconnectReason::UserInitiated => EndReason::UserDisconnect,
        DisconnectReason::ServerInitiated => EndReason::ServerDisconnect,
        DisconnectReason::Other(description) => {
            let chars = chars_of(description.as_str());
            let needle = chars_of("Another user connected");
            proof {
                lemma_place_of(chars@, needle@, 0);
            }
            if find_from(&chars, &needle, 0).is_some() {
                EndReason::SessionReplaced
            } else {
                EndReason::ServerDisconnect
            }
        }
    }
}

/// What is done about an output. A redirection is kept.
pub fn on_output(output: StageOutput, egfx_active: bool, pending: &mut Option<PendingRedirect>) -> (action: Option<
    LoopAction,
>)
    ensures
        action == action_of(output, egfx_active),
        match output {
            StageOutput::Redirect(packet) => *final(pending) is Some && (*final(pending))->0@ == kept_of(packet),
            _ => *final(pending) == *old(pending),
        },
{
    match output {
        StageOutput::ResponseFrame(frame) => Some(LoopAction::Send(frame)),
        StageOutput::GraphicsUpdate(region) => {
            if egfx_active {
                None
            } else {
                Some(LoopAction::Paint(region))
            }
        }
        StageOutput::PointerDefault => Some(LoopAction::DefaultCursor),
        StageOutput::PointerHidden => Some(LoopAction::HideCursor),
        StageOutput::PointerBitmap(image) => Some(LoopAction::CustomCursor(image)),
        StageOutput::Terminate(reason) => Some(LoopAction::End(classify_end(reason))),
        StageOutput::Redirect(packet) => {
            *pending = Some(PendingRedirect::from_packet(&packet));
            Some(LoopAction::End(EndReason::Redirected))
        }
        StageOutput::Other => None,
    }
}

fn ends(output: &StageOutput) -> (end: bool)
    ensures
        end == is_end(*output),
{
    match output {
        StageOutput::Terminate(_) => true,
        StageOutput::Redirect(_) => true,
        _ => false,
    }
}

/// What is done about outputs, in order. A redirection is kept.
pub fn on_outputs(outputs: Vec<StageOutput>, egfx_active: bool, pending: &mut Option<PendingRedirect>) -> (actions: Vec<
    LoopAction,
>)
    ensures
        actions@ == actions_of(outputs@, egfx_active),
        match redirect_in(outputs@) {
            Some(packet) => *final(pending) is Some && (*final(pending))->0@ == kept_of(packet),
            None => *final(pending) == *old(pending),
        },
{
    let ghost all = outputs@;
    let mut rest = outputs;
    let mut actions: Vec<LoopAction> = Vec::new();
    assert(actions@ + actions_of(rest@, egfx_active) =~= actions_of(all, egfx_active));
    while rest.len() > 0
        invariant
            all == outputs@,
            actions@ + actions_of(rest@, egfx_active) == actions_of(all, egfx_active),
            redirect_in(rest@) == redirect_in(all),
            *pending == *old(pending),
        decreases rest@.len(),
    {
        let ghost before = rest@;
        let ghost done = actions@;
        let output = rest.remove(0);
        assert(rest@ =~= before.skip(1));
        assert(output == before[0]);
        let end = ends(&output);
        match on_output(output, egfx_active, pending) {
            Some(action) => actions.push(action),
            None => {}
        }
        if end {
            assert(actions@ =~= done + actions_of(before, egfx_active));
            return actions;
        }
        assert(actions@ + actions_of(rest@, egfx_active) =~= done + actions_of(before, egfx_active));
    }
    assert(actions@ =~= actions_of(all, egfx_active));
    actions
}

// ---------------------------------------------------------------------------
// The loop
// ---------------------------------------------------------------------------
/// Where the loop stands.
#[derive(Debug, Clone, Copy, PartialEq, Eq)]
pub enum LoopState {
    /// It waits for a PDU of the server or for an event.
    Waiting,
    /// It waits for the end of some work.
    Working(Work),
    Ended(EndReason),
}

/// What happened.
#[derive(Debug, PartialEq, Eq)]
pub enum LoopEvent {
    /// The server sent a PDU.
    Pdu { action: Action, payload: Vec<u8> },
    ReadFailed,
    /// An event; `None` where no more can come.
    Input(Option<InputEvent>),
    /// The work is done.
    Worked(WorkResult),
}

/// What is to be done next.
#[derive(Debug, PartialEq, Eq)]
pub enum LoopStep {
    Work(LoopCommand),
    Act(Vec<LoopAction>),
}

/// The loop of a session.
#[derive(Debug, PartialEq, Eq)]
pub struct SessionLoop {
    pub state: LoopState,
    /// A redirection, kept for the page to follow.
    pub pending: Option<PendingRedirect>,
}

/// How outputs end the session, if they do.
pub open spec fn ending_in(outputs: Seq<StageOutput>) -> Option<EndReason>
    decreases outputs.len(),
{
    if outputs.len() == 0 {
        None
    } else if is_end(outputs[0]) {
        match outputs[0] {
            StageOutput::Terminate(reason) => Some(end_of(reason)),
            _ => Some(EndReason::Redirected),
        }
    } else {
        ending_in(outputs.skip(1))
    }
}

/// Whether the event in a loop event can be counted.
pub open spec fn loop_event_fits(event: LoopEvent) -> bool {
    event matches LoopEvent::Input(Some(e)) ==> event_fits(e)
}

/// Whether a redirection is kept where outputs hold one.
pub open spec fn keeps_redirect(
    outputs: Seq<StageOutput>,
    before: Option<PendingRedirect>,
    after: Option<PendingRedirect>,
) -> bool {
    match redirect_in(outputs) {
        Some(packet) => after is Some && after->0@ == kept_of(packet),
        None => after == before,
    }
}

/// Whether the loop moves from where it stands on an event.
pub open spec fn loop_moves(
    before: SessionLoop,
    event: LoopEvent,
    egfx_active: bool,
    after: SessionLoop,
    step: Result<LoopStep, LoopError>,
) -> bool {
    match (before.state, event) {
        (LoopState::Waiting, LoopEvent::Pdu { action, payload }) => {
            &&& after.state == LoopState::Working(Work::Pdu)
            &&& after.pending == before.pending
            &&& step == Ok::<LoopStep, LoopError>(LoopStep::Work(LoopCommand::ProcessPdu { action, payload }))
        },
        (LoopState::Waiting, LoopEvent::ReadFailed) => {
            &&& after.state == LoopState::Ended(EndReason::ConnectionLost)
            &&& after.pending == before.pending
            &&& step == Err::<LoopStep, LoopError>(LoopError::ReadFailed)
        },
        (LoopState::Waiting, LoopEvent::Input(Some(input))) => {
            &&& after.pending == before.pending
            &&& match work_of(input) {
                Some(work) => {
                    &&& after.state == LoopState::Working(work)
                    &&& step matches Ok(LoopStep::Work(command)) && commands(input, command)
                },
                None => {
                    &&& after.state == LoopState::Waiting
                    &&& step matches Ok(LoopStep::Act(actions)) && actions@ == Seq::<LoopAction>::empty()
                },
            }
        },
        (LoopState::Waiting, LoopEvent::Input(None)) => {
            &&& after.state == LoopState::Ended(EndReason::UserDisconnect)
            &&& after.pending == before.pending
            &&& step matches Ok(LoopStep::Act(actions)) && actions@ == seq![
                LoopAction::End(EndReason::UserDisconnect),
            ]
        },
        (LoopState::Working(work), LoopEvent::Worked(result)) => match outcome(work, result) {
            Ok(outputs) => {
                &&& after.state == (match ending_in(outputs) {
                    Some(reason) => LoopState::Ended(reason),
                    None => LoopState::Waiting,
                })
                &&& keeps_redirect(outputs, before.pending, after.pending)
                &&& step matches Ok(LoopStep::Act(actions)) && actions@ == actions_of(outputs, egfx_active)
            },
            Err(e) => {
                &&& after.state == LoopState::Ended(EndReason::ConnectionLost)
                &&& after.pending == before.pending
                &&& step == Err::<LoopStep, LoopError>(e)
            },
        },
        _ => {
            &&& after == before
            &&& step == Err::<LoopStep, LoopError>(LoopError::OutOfOrder)
        },
    }
}

fn end_among(outputs: &Vec<StageOutput>) -> (end: bool)
    ensures
        end == (ending_in(outputs@) is Some),
{
    let mut i: usize = 0;
    assert(outputs@.skip(0) =~= outputs@);
    while i < outputs.len()
        invariant
            i <= outputs@.len(),
            ending_in(outputs@) == ending_in(outputs@.skip(i as int)),
        decreases outputs@.len() - i,
    {
        assert(outputs@.skip(i as int)[0] == outputs@[i as int]);
        assert(outputs@.skip(i as int).skip(1) =~= outputs@.skip(i + 1));
        if ends(&outputs[i]) {
            return true;
        }
        i = i + 1;
    }
    false
}

proof fn lemma_last_action_ends(outputs: Seq<StageOutput>, egfx_active: bool)
    ensures
        ending_in(outputs) matches Some(reason) ==> actions_of(outputs, egfx_active).len() > 0 && actions_of(
            outputs,
            egfx_active,
        ).last() == LoopAction::End(reason),
    decreases outputs.len(),
{
    if outputs.len() > 0 && !is_end(outputs[0]) {
        lemma_last_action_ends(outputs.skip(1), egfx_active);
    }
}

fn last_end(actions: &Vec<LoopAction>) -> (reason: Option<EndReason>)
    ensures
        actions@.len() > 0 && actions@.last() is End ==> reason == Some(actions@.last()->End_0),
{
    let n: usize = actions.len();
    if n == 0 {
        return None;
    }
    match &actions[n - 1] {
        LoopAction::End(reason) => Some(*reason),
        _ => None,
    }
}

impl SessionLoop {
    pub fn new() -> (session_loop: Self)
        ensures
            session_loop.state == LoopState::Waiting,
            session_loop.pending is None,
    {
        SessionLoop { state: LoopState::Waiting, pending: None }
    }

    /// Takes what happened and gives what to do next. `egfx_active` is whether the
    /// graphics pipeline draws.
    pub fn handle(&mut self, event: LoopEvent, egfx_active: bool) -> (step: Result<LoopStep, LoopError>)
        requires
            loop_event_fits(event),
        ensures
            loop_moves(*old(self), event, egfx_active, *final(self), step),
    {
        match (self.state, event) {
            (LoopState::Waiting, LoopEvent::Pdu { action, payload }) => {
                self.state = LoopState::Working(Work::Pdu);
                Ok(LoopStep::Work(LoopCommand::ProcessPdu { action, payload }))
            }
            (LoopState::Waiting, LoopEvent::ReadFailed) => {
                self.state = LoopState::Ended(EndReason::ConnectionLost);
                Err(LoopError::ReadFailed)
            }
            (LoopState::Waiting, LoopEvent::Input(Some(input))) => match command_for(input) {
                Some((work, command)) => {
                    self.state = LoopState::Working(work);
                    Ok(LoopStep::Work(command))
                }
                None => {
                    let actions: Vec<LoopAction> = Vec::new();
                    assert(actions@ =~= Seq::<LoopAction>::empty());
                    Ok(LoopStep::Act(actions))
                }
            },
            (LoopState::Waiting, LoopEvent::Input(None)) => {
                self.state = LoopState::Ended(EndReason::UserDisconnect);
                let mut actions: Vec<LoopAction> = Vec::new();
                actions.push(LoopAction::End(EndReason::UserDisconnect));
                assert(actions@ =~= seq![LoopAction::End(EndReason::UserDisconnect)]);
                Ok(LoopStep::Act(actions))
            }
            (LoopState::Working(work), LoopEvent::Worked(result)) => match outputs_after(work, result) {
                Ok(outputs) => {
                    proof {
                        lemma_last_action_ends(outputs@, egfx_active);
                    }
                    let end = end_among(&outputs);
                    let actions = on_outputs(outputs, egfx_active, &mut self.pending);
                    self.state = if end {
                        match last_end(&actions) {
                            Some(reason) => LoopState::Ended(reason),
                            None => LoopState::Waiting,
                        }
                    } else {
                        LoopState::Waiting
                    };
                    Ok(LoopStep::Act(actions))
                }
                Err(e) => {
                    self.state = LoopState::Ended(EndReason::ConnectionLost);
                    Err(e)
                }
            },
            _ => Err(LoopError::OutOfOrder),
        }
    }
}

// ---------------------------------------------------------------------------
// Laws
// ---------------------------------------------------------------------------
/// Nothing is done after the session has ended: if an end is among the actions, it is
/// the last of them.
pub proof fn law_the_end_comes_last(outputs: Seq<StageOutput>, egfx_active: bool, i: int)
    requires
        0 <= i < actions_of(outputs, egfx_active).len(),
        actions_of(outputs, egfx_active)[i] is End,
    ensures
        i == actions_of(outputs, egfx_active).len() - 1,
    decreases outputs.len(),
{
    let rest = outputs.skip(1);
    let first = action_of(outputs[0], egfx_active);
    if !is_end(outputs[0]) {
        if first is Some {
            assert(actions_of(outputs, egfx_active) =~= seq![first->0] + actions_of(rest, egfx_active));
            if i > 0 {
                law_the_end_comes_last(rest, egfx_active, i - 1);
            }
        } else {
            assert(actions_of(outputs, egfx_active) =~= actions_of(rest, egfx_active));
            law_the_end_comes_last(rest, egfx_active, i);
        }
    } else {
        assert(actions_of(outputs, egfx_active) =~= seq![first->0]);
    }
}

/// Once the graphics pipeline draws, nothing of the image is painted over it.
pub proof fn law_pipeline_is_not_painted_over(outputs: Seq<StageOutput>, i: int)
    requires
        0 <= i < actions_of(outputs, true).len(),
    ensures
        !(actions_of(outputs, true)[i] is Paint),
    decreases outputs.len(),
{
    let rest = outputs.skip(1);
    let first = action_of(outputs[0], true);
    if !is_end(outputs[0]) {
        if first is Some {
            assert(actions_of(outputs, true) =~= seq![first->0] + actions_of(rest, true));
            if i > 0 {
                law_pipeline_is_not_painted_over(rest, i - 1);
            }
        } else {
            assert(actions_of(outputs, true) =~= actions_of(rest, true));
            law_pipeline_is_not_painted_over(rest, i);
        }
    } else {
        assert(actions_of(outputs, true) =~= seq![first->0]);
    }
}

/// A session that has ended stays ended, and asks for nothing more.
pub proof fn law_ended_session_stays_ended(
    before: SessionLoop,
    event: LoopEvent,
    egfx_active: bool,
    after: SessionLoop,
    step: Result<LoopStep, LoopError>,
)
    requires
        before.state is Ended,
        loop_moves(before, event, egfx_active, after, step),
    ensures
        after == before,
        step == Err::<LoopStep, LoopError>(LoopError::OutOfOrder),
{
}

/// A PDU that cannot be processed, a size or layout that cannot be encoded, or a channel
/// that the server does not offer leaves the session running.
pub proof fn law_harmless_failures_do_not_end_the_session(
    before: SessionLoop,
    result: WorkResult,
    egfx_active: bool,
    after: SessionLoop,
    step: Result<LoopStep, LoopError>,
)
    requires
        before.state == LoopState::Working(Work::Pdu) || before.state == LoopState::Working(Work::Layout)
            || before.state is Working && !(result is Failed),
        result is Failed || result is Unavailable || result is Refused,
        loop_moves(before, LoopEvent::Worked(result), egfx_active, after, step),
    ensures
        after.state == LoopState::Waiting,
        step is Ok,
{
}

/// A session that another user has taken over is never reported as lost, so that the
/// page does not take it back.
pub proof fn law_replaced_session_is_not_lost(reason: DisconnectReason)
    ensures
        end_of(reason) != EndReason::ConnectionLost,
        reason matches DisconnectReason::Other(d) && occurs(d@, "Another user connected"@) ==> end_of(reason)
            == EndReason::SessionReplaced,
{
}

/// What the user does on the keyboard is what the server hears: a key that goes down sends its
/// own code as a press, extended or not; one that was down and goes up sends it as a release.
pub proof fn law_keys_are_sent_as_they_are(down: Set<(bool, u8)>, code: u8, extended: bool)
    ensures
        ({
            let (held, pressed) = key_step(down, key_op(code, true, extended));
            let (free, released) = key_step(held, key_op(code, false, extended));
            let state = if extended {
                2u8
            } else {
                0u8
            };
            &&& pressed.last() == (InputPdu::Key { state, code })
            &&& held == down.insert((extended, code))
            &&& released == seq![InputPdu::Key { state: (state + 1) as u8, code }]
            &&& free == down.remove((extended, code))
            &&& !down.contains((extended, code)) ==> pressed.len() == 1 && key_step(
                down,
                key_op(code, false, extended),
            ).1.len() == 0
        }),
{
    let (held, pressed) = key_step(down, key_op(code, true, extended));
    let (free, released) = key_step(held, key_op(code, false, extended));
    assert(free =~= down.remove((extended, code)));
}

/// A mouse button goes down and up under its own number, where the pointer is.
pub proof fn law_buttons_are_sent_as_they_are(down: Set<u8>, button: u8, at: (u16, u16))
    requires
        !down.contains(button),
        button < 3,
    ensures
        ({
            let (held, pressed) = button_step(down, at, button_op(button, true));
            let (free, released) = button_step(held, at, button_op(button, false));
            let name = if button == 0 {
                0x1000u16
            } else if button == 1 {
                0x4000u16
            } else {
                0x2000u16
            };
            &&& pressed == seq![InputPdu::Mouse { flags: (0x8000 + name) as u16, wheel: 0, x: at.0, y: at.1 }]
            &&& released == seq![InputPdu::Mouse { flags: name, wheel: 0, x: at.0, y: at.1 }]
            &&& held.contains(button)
            &&& free == down
        }),
{
    let (held, pressed) = button_step(down, at, button_op(button, true));
    let (free, released) = button_step(held, at, button_op(button, false));
    assert(free =~= down);
}

/// While the loop waits, each event asks for one piece of work with all that the event holds:
/// input goes as it came, a new size in its own width and height, a layout with the monitors
/// that are allowed and the size of the desktop that holds all of them, a clipboard message
/// and files as they are. A layout of which no monitor is allowed asks for nothing; the user's
/// end asks for a shutdown, and with no more events to come the session ends.
pub proof fn law_events_ask_for_their_work(
    before: SessionLoop,
    input: InputEvent,
    egfx_active: bool,
    after: SessionLoop,
    step: Result<LoopStep, LoopError>,
)
    requires
        before.state is Waiting,
        loop_moves(before, LoopEvent::Input(Some(input)), egfx_active, after, step),
    ensures
        after.pending == before.pending,
        step is Ok,
        match input {
            InputEvent::FastPath(events) => step->Ok_0 == LoopStep::Work(LoopCommand::ProcessInput(events))
                && after.state == LoopState::Working(Work::Input),
            InputEvent::Resize { width, height } => {
                &&& step->Ok_0 matches LoopStep::Work(LoopCommand::EncodeResize { width: w, height: h })
                &&& w == width && h == height
                &&& after.state == LoopState::Working(Work::Layout)
            },
            InputEvent::MonitorLayout { monitors } => {
                let given = dc_layout(monitors@, monitors@.len() as int / 5);
                &&& given.len() > 0 ==> {
                    &&& step->Ok_0 matches LoopStep::Work(LoopCommand::EncodeLayout { entries, width, height })
                    &&& entries@ == given
                    &&& (width, height) == desktop_size(layout_of(monitors@))
                    &&& after.state == LoopState::Working(Work::Layout)
                }
                &&& given.len() == 0 ==> after.state is Waiting && step->Ok_0 is Act && step->Ok_0->Act_0@.len() == 0
            },
            InputEvent::Cliprdr(message) => step->Ok_0 == LoopStep::Work(LoopCommand::Clipboard(message))
                && after.state == LoopState::Working(Work::Clipboard),
            InputEvent::FileCopy(files) => step->Ok_0 == LoopStep::Work(LoopCommand::FileCopy(files)) && after.state
                == LoopState::Working(Work::Clipboard),
            InputEvent::Terminate => step->Ok_0 == LoopStep::Work(LoopCommand::Shutdown) && after.state
                == LoopState::Working(Work::Shutdown),
        },
{
}

/// While the loop waits, a PDU goes to be processed as it came; a connection that cannot be
/// read is lost; and where no more events can come the user has ended the session.
pub proof fn law_waiting_loop_goes_on(
    before: SessionLoop,
    event: LoopEvent,
    egfx_active: bool,
    after: SessionLoop,
    step: Result<LoopStep, LoopError>,
)
    requires
        before.state is Waiting,
        loop_moves(before, event, egfx_active, after, step),
    ensures
        event matches LoopEvent::Pdu { action, payload } ==> step == Ok::<LoopStep, LoopError>(
            LoopStep::Work(LoopCommand::ProcessPdu { action, payload }),
        ) && after.state == LoopState::Working(Work::Pdu),
        event is ReadFailed ==> step is Err && after.state == LoopState::Ended(EndReason::ConnectionLost),
        event == LoopEvent::Input(None) ==> after.state == LoopState::Ended(EndReason::UserDisconnect) && step is Ok
            && step->Ok_0 is Act && step->Ok_0->Act_0@ == seq![LoopAction::End(EndReason::UserDisconnect)],
        event is Worked ==> after == before && step is Err,
{
}

/// Input, a clipboard message or a shutdown that fails ends the session as lost, each with its
/// own error; what fails otherwise is passed over. Work that gives one frame sends it.
pub proof fn law_fatal_failures_end_the_session(
    before: SessionLoop,
    work: Work,
    result: WorkResult,
    egfx_active: bool,
    after: SessionLoop,
    step: Result<LoopStep, LoopError>,
)
    requires
        before.state == LoopState::Working(work),
        loop_moves(before, LoopEvent::Worked(result), egfx_active, after, step),
    ensures
        result is Failed && (work is Input || work is Clipboard || work is Shutdown) ==> after.state
            == LoopState::Ended(EndReason::ConnectionLost) && step is Err && after.pending == before.pending,
        result is Failed && work is Input ==> step->Err_0 is InputFailed,
        result is Failed && work is Clipboard ==> step->Err_0 is ClipboardEncodeFailed,
        result is Failed && work is Shutdown ==> step->Err_0 is ShutdownFailed,
        result is Failed && (work is Pdu || work is Layout) || result is Unavailable || result is Refused ==> {
            &&& after == before || after.state is Waiting
            &&& after.pending == before.pending
            &&& step is Ok && step->Ok_0 is Act && step->Ok_0->Act_0@.len() == 0
        },
        result matches WorkResult::Frame(frame) ==> after.state is Waiting && step is Ok && step->Ok_0 is Act
            && step->Ok_0->Act_0@ == seq![LoopAction::Send(frame)],
{
    reveal_with_fuel(ending_in, 2);
    reveal_with_fuel(actions_of, 2);
    reveal_with_fuel(redirect_in, 2);
    match result {
        WorkResult::Frame(frame) => {
            let outputs = seq![StageOutput::ResponseFrame(frame)];
            assert(outputs.skip(1) =~= Seq::<StageOutput>::empty());
            assert(actions_of(outputs, egfx_active) =~= seq![LoopAction::Send(frame)]);
        },
        _ => {},
    }
}

/// Whether one of some outputs ends the session.
pub open spec fn has_end(outputs: Seq<StageOutput>) -> bool {
    exists|i: int| 0 <= i < outputs.len() && (#[trigger] outputs[i] is Terminate || outputs[i] is Redirect)
}

/// Outputs are acted on one after the other: what is done about two runs of outputs is what is
/// done about the first and then about the second, unless the first ends the session, and then
/// nothing of the second is done, no end of it counts and no redirection of it is kept.
pub proof fn law_outputs_are_acted_on_in_turn(first: Seq<StageOutput>, second: Seq<StageOutput>, egfx_active: bool)
    ensures
        !has_end(first) ==> actions_of(first + second, egfx_active) == actions_of(first, egfx_active) + actions_of(
            second,
            egfx_active,
        ) && ending_in(first + second) == ending_in(second) && redirect_in(first + second) == redirect_in(second),
        has_end(first) ==> actions_of(first + second, egfx_active) == actions_of(first, egfx_active) && ending_in(
            first + second,
        ) == ending_in(first) && redirect_in(first + second) == redirect_in(first),
        has_end(first) == (ending_in(first) is Some),
    decreases first.len(),
{
    let all = first + second;
    if first.len() == 0 {
        assert(all =~= second);
        assert(actions_of(first, egfx_active) + actions_of(second, egfx_active) =~= actions_of(second, egfx_active));
    } else {
        let rest = first.skip(1);
        assert(all.skip(1) =~= rest + second);
        assert(all[0] == first[0]);
        law_outputs_are_acted_on_in_turn(rest, second, egfx_active);
        if is_end(first[0]) {
            assert(has_end(first));
        } else {
            if has_end(rest) {
                let i = choose|i: int|
                    0 <= i < rest.len() && (#[trigger] rest[i] is Terminate || rest[i] is Redirect);
                assert(first[i + 1] == rest[i]);
            }
            if has_end(first) {
                let i = choose|i: int|
                    0 <= i < first.len() && (#[trigger] first[i] is Terminate || first[i] is Redirect);
                assert(rest[i - 1] == first[i]);
            }
            let one = match action_of(first[0], egfx_active) {
                Some(action) => seq![action],
                None => seq![],
            };
            assert(actions_of(all, egfx_active) == one + actions_of(rest + second, egfx_active));
            assert(one + (actions_of(rest, egfx_active) + actions_of(second, egfx_active)) =~= (one + actions_of(
                rest,
                egfx_active,
            )) + actions_of(second, egfx_active));
        }
    }
}

/// What is done about one output: a frame is sent as it is, a changed region of the image is
/// drawn as it is unless the graphics pipeline draws, a cursor is shown, hidden or made as the
/// server says, an end is an end and a redirection is one too, which is kept.
pub proof fn law_each_output_has_its_action(output: StageOutput, egfx_active: bool)
    ensures
        ({
            let outputs = seq![output];
            let done = actions_of(outputs, egfx_active);
            match output {
                StageOutput::ResponseFrame(frame) => done == seq![LoopAction::Send(frame)],
                StageOutput::GraphicsUpdate(region) => done == if egfx_active {
                    Seq::empty()
                } else {
                    seq![LoopAction::Paint(region)]
                },
                StageOutput::PointerDefault => done == seq![LoopAction::DefaultCursor],
                StageOutput::PointerHidden => done == seq![LoopAction::HideCursor],
                StageOutput::PointerBitmap(image) => done == seq![LoopAction::CustomCursor(image)],
                StageOutput::Terminate(reason) => ending_in(outputs) is Some && done == seq![
                    LoopAction::End(ending_in(outputs)->0),
                ] && redirect_in(outputs) is None,
                StageOutput::Redirect(packet) => done == seq![LoopAction::End(EndReason::Redirected)] && ending_in(
                    outputs,
                ) == Some(EndReason::Redirected) && redirect_in(outputs) == Some(packet),
                StageOutput::Other => done.len() == 0,
            }
        }),
        output matches StageOutput::Terminate(reason) ==> ending_in(seq![output]) == Some(
            match reason {
                DisconnectReason::UserInitiated => EndReason::UserDisconnect,
                DisconnectReason::ServerInitiated => EndReason::ServerDisconnect,
                DisconnectReason::Other(text) => if occurs(text@, "Another user connected"@) {
                    EndReason::SessionReplaced
                } else {
                    EndReason::ServerDisconnect
                },
            },
        ),
{
    let outputs = seq![output];
    reveal_with_fuel(ending_in, 2);
    reveal_with_fuel(actions_of, 2);
    reveal_with_fuel(redirect_in, 2);
    assert(outputs[0] == output);
    assert(outputs.skip(1) =~= Seq::<StageOutput>::empty());
    let one = match action_of(output, egfx_active) {
        Some(action) => seq![action],
        None => seq![],
    };
    assert(actions_of(outputs, egfx_active) =~= one);
}

/// No two ends go by one tag, so that the page can tell them apart.
pub proof fn law_ends_have_their_own_tags(a: EndReason, b: EndReason)
    requires
        end_tag(a) == end_tag(b),
    ensures
        a == b,
{
    reveal_strlit("session_replaced");
    reveal_strlit("user_disconnect");
    reveal_strlit("server_disconnect");
    reveal_strlit("redirected");
    reveal_strlit("connection_lost");
    let tag = end_tag(a);
    assert(tag.len() == end_tag(b).len());
    assert(tag[0] == end_tag(b)[0]);
    assert(tag[4] == end_tag(b)[4]);
}

/// A redirection packet is kept field by field, each under its own name; credentials that it
/// does not hold are empty ones.
pub proof fn law_redirection_is_kept_field_by_field(packet: RedirectionPacket)
    ensures
        ({
            let kept = kept_of(packet);
            &&& packet.user_name matches Some(bytes) ==> kept.user_name == bytes@
            &&& packet.user_name is None ==> kept.user_name.len() == 0
            &&& packet.domain matches Some(bytes) ==> kept.domain == bytes@
            &&& packet.domain is None ==> kept.domain.len() == 0
            &&& packet.password matches Some(bytes) ==> kept.password == bytes@
            &&& packet.password is None ==> kept.password.len() == 0
            &&& packet.redirection_guid matches Some(bytes) ==> kept.redirection_guid == bytes@
            &&& packet.redirection_guid is None ==> kept.redirection_guid.len() == 0
            &&& packet.load_balance_info matches Some(bytes) ==> kept.routing_token == Some(bytes@)
            &&& packet.load_balance_info is None ==> kept.routing_token is None
            &&& packet.target_certificate matches Some(bytes) ==> kept.target_certificate == Some(bytes@)
            &&& packet.target_certificate is None ==> kept.target_certificate is None
        }),
{
}

/// What the user does with keys and mouse changes nothing else of the handle.
pub proof fn law_input_changes_nothing_else(a: Session, b: Session)
    requires
        same_but_input(a, b),
    ensures
        a == (Session { input_db: a.input_db, ..b }),
{
}

/// When the outputs of some work hold a redirection that ends the session, what is kept of its
/// packet waits for the page; otherwise what waited waits on.
pub proof fn law_redirection_waits_for_the_page(
    before: SessionLoop,
    work: Work,
    outputs: Vec<StageOutput>,
    egfx_active: bool,
    after: SessionLoop,
    step: Result<LoopStep, LoopError>,
)
    requires
        before.state == LoopState::Working(work),
        loop_moves(before, LoopEvent::Worked(WorkResult::Outputs(outputs)), egfx_active, after, step),
    ensures
        redirect_in(outputs@) matches Some(packet) ==> after.pending is Some && after.pending->0@ == kept_of(packet)
            && after.state == LoopState::Ended(EndReason::Redirected),
        redirect_in(outputs@) is None ==> after.pending == before.pending,
        step is Ok && step->Ok_0 is Act && step->Ok_0->Act_0@ == actions_of(outputs@, egfx_active),
        !has_end(outputs@) ==> after.state is Waiting,
{
    lemma_redirect_ends(outputs@);
    law_outputs_are_acted_on_in_turn(outputs@, Seq::empty(), egfx_active);
}

proof fn lemma_redirect_ends(outputs: Seq<StageOutput>)
    ensures
        redirect_in(outputs) is Some ==> ending_in(outputs) == Some(EndReason::Redirected),
    decreases outputs.len(),
{
    if outputs.len() > 0 && !is_end(outputs[0]) {
        lemma_redirect_ends(outputs.skip(1));
    }
}

} // verus!
