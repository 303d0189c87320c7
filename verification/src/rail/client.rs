//! The client of the `rail` channel: on the server's handshake it answers with
//! its own handshake, its status and settings, and launches the application.

use vstd::prelude::*;

use crate::rail::pdu::{server_order, ClientRailOrder, ExecResult, RailDecodeError, ServerRailOrder};

verus! {

/// The Windows build number that the client reports.
pub const RAIL_CLIENT_BUILD: u32 = 7601;

/// The name of the channel, without its padding to 8 bytes.
pub const RAIL_CHANNEL_NAME: &'static str = "rail";

/// Initialized (0x8000_0000), encrypted (0x4000_0000), compressed (0x0080_0000)
/// and with the channel header visible (0x0020_0000).
pub const RAIL_CHANNEL_OPTIONS: u32 = 0xC0A0_0000;

/// Every PDU of the channel shows its channel header.
pub const CHANNEL_FLAG_SHOW_PROTOCOL: u32 = 0x10;

/// Receives the one server event of the channel that the user sees. Window
/// information does not come this way but with the graphics orders.
pub trait RailClientHandler: Sized {
    /// How a handler may change when a result is delivered.
    spec fn delivered(before: Self, result: ExecResult, after: Self) -> bool;

    /// The outcome of the launch; 0 is success.
    fn on_exec_result(&mut self, result: ExecResult)
        ensures
            Self::delivered(*old(self), result, *final(self)),
    ;
}

/// An order with the channel flags it is sent with.
#[derive(Debug, PartialEq, Eq)]
pub struct RailMessage {
    pub order: ClientRailOrder,
    pub flags: u32,
}

/// The client's side of the channel.
pub struct Rail<H: RailClientHandler> {
    pub handler: H,
    pub program: String,
    pub working_dir: String,
    pub arguments: String,
    pub width: u16,
    pub height: u16,
    pub handshake_done: bool,
}

/// The orders that answer the server's handshake.
pub open spec fn init_orders(
    program: String,
    working_dir: String,
    arguments: String,
    width: u16,
    height: u16,
) -> Seq<ClientRailOrder> {
    seq![
        ClientRailOrder::Handshake { build_number: RAIL_CLIENT_BUILD },
        ClientRailOrder::ClientStatus { flags: 0 },
        ClientRailOrder::SysParamHighContrastOff,
        ClientRailOrder::SysParamWorkArea { width, height },
        ClientRailOrder::Exec { exe_or_file: program, working_dir, arguments },
    ]
}

/// Whether a payload is a server handshake.
pub open spec fn is_handshake(payload: Seq<u8>) -> bool {
    server_order(payload) == Ok::<ServerRailOrder, RailDecodeError>(ServerRailOrder::Handshake)
}

/// The answer to one payload: the init orders to the first handshake, nothing
/// to anything else.
pub open spec fn answer(init: Seq<ClientRailOrder>, done: bool, payload: Seq<u8>) -> Seq<ClientRailOrder> {
    if is_handshake(payload) && !done {
        init
    } else {
        Seq::empty()
    }
}

/// The answers to a run of payloads, one after the other.
pub open spec fn answers(init: Seq<ClientRailOrder>, done: bool, payloads: Seq<Seq<u8>>) -> Seq<ClientRailOrder>
    decreases payloads.len(),
{
    if payloads.len() == 0 {
        Seq::empty()
    } else {
        answer(init, done, payloads[0]) + answers(init, done || is_handshake(payloads[0]), payloads.skip(1))
    }
}

/// Orders with the channel flags they are sent with.
pub open spec fn messages(orders: Seq<ClientRailOrder>) -> Seq<RailMessage> {
    orders.map_values(
        |order: ClientRailOrder| RailMessage { order, flags: CHANNEL_FLAG_SHOW_PROTOCOL },
    )
}

impl<H: RailClientHandler> Rail<H> {
    /// The orders that answer this client's server.
    pub open spec fn init(&self) -> Seq<ClientRailOrder> {
        init_orders(self.program, self.working_dir, self.arguments, self.width, self.height)
    }

    /// A client that launches `program` once the server has shaken hands.
    pub fn new(
        handler: H,
        program: String,
        working_dir: String,
        arguments: String,
        width: u16,
        height: u16,
    ) -> (rail: Self)
        ensures
            rail == (Rail { handler, program, working_dir, arguments, width, height, handshake_done: false }),
    {
        Rail { handler, program, working_dir, arguments, width, height, handshake_done: false }
    }

    fn client_init(&self) -> (orders: Vec<ClientRailOrder>)
        ensures
            orders@ == self.init(),
    {
        let mut orders: Vec<ClientRailOrder> = Vec::with_capacity(5);
        orders.push(ClientRailOrder::Handshake { build_number: RAIL_CLIENT_BUILD });
        // No flags: the server moves and sizes windows and draws their frames.
        orders.push(ClientRailOrder::ClientStatus { flags: 0 });
        orders.push(ClientRailOrder::SysParamHighContrastOff);
        orders.push(ClientRailOrder::SysParamWorkArea { width: self.width, height: self.height });
        orders.push(
            ClientRailOrder::Exec {
                exe_or_file: self.program.clone(),
                working_dir: self.working_dir.clone(),
                arguments: self.arguments.clone(),
            },
        );
        assert(orders@ =~= self.init());
        orders
    }

    /// Wraps an order for sending.
    pub fn msg(order: ClientRailOrder) -> (message: RailMessage)
        ensures
            message == (RailMessage { order, flags: CHANNEL_FLAG_SHOW_PROTOCOL }),
    {
        RailMessage { order, flags: CHANNEL_FLAG_SHOW_PROTOCOL }
    }

    /// Gives a window the focus, or takes it.
    pub fn activate(&self, window_id: u32, enabled: bool) -> (out: Vec<RailMessage>)
        ensures
            out@ == messages(seq![ClientRailOrder::Activate { window_id, enabled }]),
    {
        let mut out: Vec<RailMessage> = Vec::new();
        out.push(Self::msg(ClientRailOrder::Activate { window_id, enabled }));
        assert(out@ =~= messages(seq![ClientRailOrder::Activate { window_id, enabled }]));
        out
    }

    /// Minimizes, restores, maximizes or closes a window.
    pub fn sys_command(&self, window_id: u32, command: u16) -> (out: Vec<RailMessage>)
        ensures
            out@ == messages(seq![ClientRailOrder::SysCommand { window_id, command }]),
    {
        let mut out: Vec<RailMessage> = Vec::new();
        out.push(Self::msg(ClientRailOrder::SysCommand { window_id, command }));
        assert(out@ =~= messages(seq![ClientRailOrder::SysCommand { window_id, command }]));
        out
    }

    /// Takes one whole server order and gives the orders to answer with.
    pub fn handle_pdu(&mut self, payload: &[u8]) -> (out: Result<Vec<ClientRailOrder>, RailDecodeError>)
        ensures
            match server_order(payload@) {
                Err(e) => out == Err::<Vec<ClientRailOrder>, RailDecodeError>(e) && *final(self) == *old(self),
                Ok(order) => out is Ok && out->Ok_0@ == answer(
                    old(self).init(),
                    old(self).handshake_done,
                    payload@,
                ) && final(self).handshake_done == (old(self).handshake_done || order
                    == ServerRailOrder::Handshake) && final(self).init() == old(self).init() && (match order {
                    ServerRailOrder::ExecResult(result) => H::delivered(
                        old(self).handler,
                        result,
                        final(self).handler,
                    ),
                    _ => final(self).handler == old(self).handler,
                }),
            },
    {
        match ServerRailOrder::decode(payload) {
            Err(e) => Err(e),
            Ok(ServerRailOrder::Handshake) => {
                if self.handshake_done {
                    return Ok(Vec::new());
                }
                self.handshake_done = true;
                Ok(self.client_init())
            }
            Ok(ServerRailOrder::ExecResult(result)) => {
                self.handler.on_exec_result(result);
                Ok(Vec::new())
            }
            Ok(ServerRailOrder::Other(_)) => Ok(Vec::new()),
        }
    }

    /// Takes one whole server order and gives the messages to send.
    pub fn process(&mut self, payload: &[u8]) -> (out: Result<Vec<RailMessage>, RailDecodeError>)
        ensures
            match server_order(payload@) {
                Err(e) => out == Err::<Vec<RailMessage>, RailDecodeError>(e) && *final(self) == *old(self),
                Ok(order) => out is Ok && out->Ok_0@ == messages(
                    answer(old(self).init(), old(self).handshake_done, payload@),
                ) && final(self).handshake_done == (old(self).handshake_done || order
                    == ServerRailOrder::Handshake) && final(self).init() == old(self).init() && (match order {
                    ServerRailOrder::ExecResult(result) => H::delivered(
                        old(self).handler,
                        result,
                        final(self).handler,
                    ),
                    _ => final(self).handler == old(self).handler,
                }),
            },
    {
        let orders = match self.handle_pdu(payload) {
            Ok(orders) => orders,
            Err(e) => return Err(e),
        };
        let ghost all = orders@;
        let mut out: Vec<RailMessage> = Vec::with_capacity(orders.len());
        for order in it: orders
            invariant
                it.seq() == all,
                out@ == messages(all.take(it.index() as int)),
        {
            out.push(Self::msg(order));
            assert(out@ =~= messages(all.take(it.index() as int + 1)));
        }
        assert(all.take(all.len() as int) =~= all);
        Ok(out)
    }
}

/// However many handshakes and other orders the server sends, the client shakes
/// hands, and launches the application, at most once.
pub proof fn law_launches_at_most_once(init: Seq<ClientRailOrder>, done: bool, payloads: Seq<Seq<u8>>)
    ensures
        done ==> answers(init, done, payloads) == Seq::<ClientRailOrder>::empty(),
        !done ==> answers(init, done, payloads) == (if exists|i: int|
            0 <= i < payloads.len() && is_handshake(#[trigger] payloads[i]) {
            init
        } else {
            Seq::empty()
        }),
    decreases payloads.len(),
{
    if payloads.len() > 0 {
        let rest = payloads.skip(1);
        law_launches_at_most_once(init, done || is_handshake(payloads[0]), rest);
        if done {
            assert(answers(init, done, payloads) =~= Seq::<ClientRailOrder>::empty());
        } else if is_handshake(payloads[0]) {
            assert(answers(init, done, payloads) =~= init);
        } else {
            assert(answers(init, done, payloads) =~= answers(init, done, rest));
            assert forall|i: int| 0 <= i < rest.len() implies #[trigger] rest[i] == payloads[i + 1] by {}
            if exists|i: int| 0 <= i < payloads.len() && is_handshake(#[trigger] payloads[i]) {
                let i = choose|i: int| 0 <= i < payloads.len() && is_handshake(#[trigger] payloads[i]);
                assert(is_handshake(rest[i - 1]));
            }
        }
    }
}

/// The answer to the handshake is the client's own handshake, its status, its settings and at
/// last the launch: with no capabilities of its own, a work area of the whole desktop, and the
/// program, directory and arguments that it was made with. Every order goes out with the flag
/// that shows its header.
pub proof fn law_launch_follows_the_handshake(
    program: String,
    working_dir: String,
    arguments: String,
    width: u16,
    height: u16,
    payload: Seq<u8>,
    i: int,
)
    requires
        payload.len() >= 4,
        payload[0] + 0x100 * payload[1] == 0x05 || payload[0] + 0x100 * payload[1] == 0x13,
        0 <= i < 5,
    ensures
        answer(init_orders(program, working_dir, arguments, width, height), true, payload).len() == 0,
        ({
            let orders = answer(init_orders(program, working_dir, arguments, width, height), false, payload);
            let sent = messages(orders);
            &&& orders.len() == 5
            &&& orders[0] == (ClientRailOrder::Handshake { build_number: 7601 })
            &&& orders[1] == (ClientRailOrder::ClientStatus { flags: 0 })
            &&& orders[2] == ClientRailOrder::SysParamHighContrastOff
            &&& orders[3] == (ClientRailOrder::SysParamWorkArea { width, height })
            &&& orders[4] == (ClientRailOrder::Exec { exe_or_file: program, working_dir, arguments })
            &&& sent.len() == 5
            &&& sent[i].order == orders[i]
            &&& sent[i].flags == 0x10
        }),
{
}

/// Whatever else the server sends is not answered.
pub proof fn law_other_orders_are_not_answered(init: Seq<ClientRailOrder>, done: bool, payload: Seq<u8>)
    requires
        payload.len() < 4 || (payload[0] + 0x100 * payload[1] != 0x05 && payload[0] + 0x100 * payload[1] != 0x13),
    ensures
        answer(init, done, payload).len() == 0,
{
}

} // verus!
