//! The orders of the `rail` virtual channel.
//!
//! Every order begins with its type and its length, 16 bits each; the length
//! counts the whole order with this header.

use vstd::prelude::*;

use crate::utf16::{encode, law_units_of_bytes, text_bytes, utf16_len, write_utf16};
use crate::wire::{
    get_le16, get_le32, le16_at, le16_bytes, le32_at, le32_bytes, put_bytes, put_le16, put_le32,
};

verus! {

pub const RAIL_PDU_HEADER_SIZE: usize = 4;

pub const TS_RAIL_ORDER_EXEC: u16 = 0x0001;
pub const TS_RAIL_ORDER_ACTIVATE: u16 = 0x0002;
pub const TS_RAIL_ORDER_SYSPARAM: u16 = 0x0003;
pub const TS_RAIL_ORDER_SYSCOMMAND: u16 = 0x0004;
pub const TS_RAIL_ORDER_HANDSHAKE: u16 = 0x0005;
pub const TS_RAIL_ORDER_CLIENTSTATUS: u16 = 0x000B;
pub const TS_RAIL_ORDER_HANDSHAKE_EX: u16 = 0x0013;
pub const TS_RAIL_ORDER_EXEC_RESULT: u16 = 0x0080;

pub const SPI_SET_WORK_AREA: u32 = 0x0000_002F;
pub const SPI_SET_HIGH_CONTRAST: u32 = 0x0000_0043;

/// Expand environment variables in the arguments (8) and in the working
/// directory (1).
pub const RAIL_EXEC_FLAGS: u16 = 0x0009;

/// Window commands, with the values of Win32's `SC_*`.
pub const SC_MINIMIZE: u16 = 0xF020;
pub const SC_MAXIMIZE: u16 = 0xF030;
pub const SC_CLOSE: u16 = 0xF060;
pub const SC_RESTORE: u16 = 0xF120;

/// An order from the client to the server.
#[derive(Debug, Clone, PartialEq, Eq)]
pub enum ClientRailOrder {
    /// The client's build number.
    Handshake { build_number: u32 },
    /// Client capabilities; 0 leaves moving and sizing to the server.
    ClientStatus { flags: u32 },
    /// High contrast is off.
    SysParamHighContrastOff,
    /// The work area is the whole desktop, `(0, 0)` to `(width, height)`.
    SysParamWorkArea { width: u16, height: u16 },
    /// Launches the published application.
    Exec { exe_or_file: String, working_dir: String, arguments: String },
    /// Gives a window the focus, or takes it.
    Activate { window_id: u32, enabled: bool },
    /// Minimizes, restores, maximizes or closes a window.
    SysCommand { window_id: u32, command: u16 },
}

/// An order from the server, as far as the client reacts to it.
#[derive(Debug, Clone, Copy, PartialEq, Eq)]
pub enum ServerRailOrder {
    /// The handshake, which starts the client's own sequence.
    Handshake,
    /// The outcome of the launch.
    ExecResult(ExecResult),
    /// Any other order, with its type.
    Other(u16),
}

/// The outcome of a launch.
#[derive(Debug, Clone, Copy, PartialEq, Eq)]
pub struct ExecResult {
    /// 0 means success.
    pub exec_result: u16,
    /// The error code of the launch attempt on the server.
    pub raw_result: u32,
}

/// Why an order cannot be encoded.
#[derive(Debug, Clone, Copy, PartialEq, Eq)]
pub enum RailEncodeError {
    /// The order is longer than its 16-bit length can say.
    OrderLength,
}

/// Why an order cannot be decoded.
#[derive(Debug, Clone, Copy, PartialEq, Eq)]
pub enum RailDecodeError {
    /// The header is cut short.
    HeaderTruncated,
    /// The body of an execute result is cut short.
    ExecResultTruncated,
}

/// The body of an order, behind its header.
pub open spec fn body_bytes(order: ClientRailOrder) -> Seq<u8> {
    match order {
        ClientRailOrder::Handshake { build_number } => le32_bytes(build_number),
        ClientRailOrder::ClientStatus { flags } => le32_bytes(flags),
        // Parameter, flags (off), length of the scheme name with its count, count.
        ClientRailOrder::SysParamHighContrastOff => le32_bytes(SPI_SET_HIGH_CONTRAST) + le32_bytes(0)
            + le32_bytes(2) + le16_bytes(0),
        // Parameter, left, top, right, bottom.
        ClientRailOrder::SysParamWorkArea { width, height } => le32_bytes(SPI_SET_WORK_AREA) + le16_bytes(0)
            + le16_bytes(0) + le16_bytes(width) + le16_bytes(height),
        // Flags, the three byte lengths, then the three texts.
        ClientRailOrder::Exec { exe_or_file, working_dir, arguments } => {
            let exe = text_bytes(exe_or_file@);
            let dir = text_bytes(working_dir@);
            let args = text_bytes(arguments@);
            le16_bytes(RAIL_EXEC_FLAGS) + le16_bytes(exe.len() as u16) + le16_bytes(dir.len() as u16)
                + le16_bytes(args.len() as u16) + exe + dir + args
        },
        ClientRailOrder::Activate { window_id, enabled } => le32_bytes(window_id).push(
            if enabled {
                1
            } else {
                0
            },
        ),
        ClientRailOrder::SysCommand { window_id, command } => le32_bytes(window_id) + le16_bytes(command),
    }
}

/// The type of an order.
pub open spec fn type_of(order: ClientRailOrder) -> u16 {
    match order {
        ClientRailOrder::Handshake { .. } => TS_RAIL_ORDER_HANDSHAKE,
        ClientRailOrder::ClientStatus { .. } => TS_RAIL_ORDER_CLIENTSTATUS,
        ClientRailOrder::SysParamHighContrastOff => TS_RAIL_ORDER_SYSPARAM,
        ClientRailOrder::SysParamWorkArea { .. } => TS_RAIL_ORDER_SYSPARAM,
        ClientRailOrder::Exec { .. } => TS_RAIL_ORDER_EXEC,
        ClientRailOrder::Activate { .. } => TS_RAIL_ORDER_ACTIVATE,
        ClientRailOrder::SysCommand { .. } => TS_RAIL_ORDER_SYSCOMMAND,
    }
}

/// The length of a whole order.
pub open spec fn order_size(order: ClientRailOrder) -> int {
    RAIL_PDU_HEADER_SIZE + body_bytes(order).len()
}

/// A whole order as it is sent.
pub open spec fn order_bytes(order: ClientRailOrder) -> Seq<u8> {
    le16_bytes(type_of(order)) + le16_bytes(order_size(order) as u16) + body_bytes(order)
}

/// What the server's bytes say.
pub open spec fn server_order(src: Seq<u8>) -> Result<ServerRailOrder, RailDecodeError> {
    if src.len() < 4 {
        Err(RailDecodeError::HeaderTruncated)
    } else if le16_at(src, 0) == TS_RAIL_ORDER_HANDSHAKE || le16_at(src, 0) == TS_RAIL_ORDER_HANDSHAKE_EX {
        Ok(ServerRailOrder::Handshake)
    } else if le16_at(src, 0) == TS_RAIL_ORDER_EXEC_RESULT {
        // Flags, result, raw result.
        if src.len() < 12 {
            Err(RailDecodeError::ExecResultTruncated)
        } else {
            Ok(
                ServerRailOrder::ExecResult(
                    ExecResult { exec_result: le16_at(src, 6), raw_result: le32_at(src, 8) },
                ),
            )
        }
    } else {
        Ok(ServerRailOrder::Other(le16_at(src, 0)))
    }
}

impl ClientRailOrder {
    fn order_type(&self) -> (value: u16)
        ensures
            value == type_of(*self),
    {
        match self {
            ClientRailOrder::Handshake { .. } => TS_RAIL_ORDER_HANDSHAKE,
            ClientRailOrder::ClientStatus { .. } => TS_RAIL_ORDER_CLIENTSTATUS,
            ClientRailOrder::SysParamHighContrastOff => TS_RAIL_ORDER_SYSPARAM,
            ClientRailOrder::SysParamWorkArea { .. } => TS_RAIL_ORDER_SYSPARAM,
            ClientRailOrder::Exec { .. } => TS_RAIL_ORDER_EXEC,
            ClientRailOrder::Activate { .. } => TS_RAIL_ORDER_ACTIVATE,
            ClientRailOrder::SysCommand { .. } => TS_RAIL_ORDER_SYSCOMMAND,
        }
    }

    /// The body of the order; `None` where it cannot fit into any order.
    fn body(&self) -> (body: Option<Vec<u8>>)
        ensures
            match body {
                Some(b) => b@ == body_bytes(*self),
                None => body_bytes(*self).len() > 0xFFFF,
            },
    {
        let mut dst: Vec<u8> = Vec::new();
        match self {
            ClientRailOrder::Handshake { build_number } => {
                put_le32(&mut dst, *build_number);
            }
            ClientRailOrder::ClientStatus { flags } => {
                put_le32(&mut dst, *flags);
            }
            ClientRailOrder::SysParamHighContrastOff => {
                put_le32(&mut dst, SPI_SET_HIGH_CONTRAST);
                put_le32(&mut dst, 0);
                put_le32(&mut dst, 2);
                put_le16(&mut dst, 0);
            }
            ClientRailOrder::SysParamWorkArea { width, height } => {
                put_le32(&mut dst, SPI_SET_WORK_AREA);
                put_le16(&mut dst, 0);
                put_le16(&mut dst, 0);
                put_le16(&mut dst, *width);
                put_le16(&mut dst, *height);
            }
            ClientRailOrder::Exec { exe_or_file, working_dir, arguments } => {
                let mut exe: Vec<u8> = Vec::new();
                write_utf16(&mut exe, exe_or_file.as_str());
                let mut dir: Vec<u8> = Vec::new();
                write_utf16(&mut dir, working_dir.as_str());
                let mut args: Vec<u8> = Vec::new();
                write_utf16(&mut args, arguments.as_str());
                assert(exe@ =~= text_bytes(exe_or_file@));
                assert(dir@ =~= text_bytes(working_dir@));
                assert(args@ =~= text_bytes(arguments@));
                if exe.len() > 0xFFFF || dir.len() > 0xFFFF || args.len() > 0xFFFF {
                    return None;
                }
                put_le16(&mut dst, RAIL_EXEC_FLAGS);
                put_le16(&mut dst, exe.len() as u16);
                put_le16(&mut dst, dir.len() as u16);
                put_le16(&mut dst, args.len() as u16);
                put_bytes(&mut dst, exe.as_slice());
                put_bytes(&mut dst, dir.as_slice());
                put_bytes(&mut dst, args.as_slice());
            }
            ClientRailOrder::Activate { window_id, enabled } => {
                put_le32(&mut dst, *window_id);
                dst.push(
                    if *enabled {
                        1
                    } else {
                        0
                    },
                );
            }
            ClientRailOrder::SysCommand { window_id, command } => {
                put_le32(&mut dst, *window_id);
                put_le16(&mut dst, *command);
            }
        }
        assert(dst@ =~= body_bytes(*self));
        Some(dst)
    }

    fn body_size(&self) -> (size: usize)
        requires
            order_size(*self) <= usize::MAX,
        ensures
            size == body_bytes(*self).len(),
    {
        match self {
            ClientRailOrder::Handshake { .. } => 4,
            ClientRailOrder::ClientStatus { .. } => 4,
            ClientRailOrder::SysParamHighContrastOff => 14,
            ClientRailOrder::SysParamWorkArea { .. } => 12,
            ClientRailOrder::Exec { exe_or_file, working_dir, arguments } => {
                proof {
                    law_units_of_bytes(encode(exe_or_file@));
                    law_units_of_bytes(encode(working_dir@));
                    law_units_of_bytes(encode(arguments@));
                }
                8 + utf16_len(exe_or_file.as_str()) + utf16_len(working_dir.as_str()) + utf16_len(
                    arguments.as_str(),
                )
            }
            ClientRailOrder::Activate { .. } => 5,
            ClientRailOrder::SysCommand { .. } => 6,
        }
    }

    /// The number of bytes that the order takes.
    pub fn size(&self) -> (size: usize)
        requires
            order_size(*self) <= usize::MAX,
        ensures
            size == order_size(*self),
    {
        RAIL_PDU_HEADER_SIZE + self.body_size()
    }

    /// The bytes of the order. An order whose length does not fit in 16 bits is
    /// an error.
    pub fn encode(&self) -> (bytes: Result<Vec<u8>, RailEncodeError>)
        ensures
            match bytes {
                Ok(b) => order_size(*self) <= 0xFFFF && b@ == order_bytes(*self),
                Err(e) => order_size(*self) > 0xFFFF && e == RailEncodeError::OrderLength,
            },
    {
        let body = match self.body() {
            Some(b) => b,
            None => return Err(RailEncodeError::OrderLength),
        };
        if body.len() > 0xFFFF - RAIL_PDU_HEADER_SIZE {
            return Err(RailEncodeError::OrderLength);
        }
        let mut dst: Vec<u8> = Vec::with_capacity(RAIL_PDU_HEADER_SIZE + body.len());
        put_le16(&mut dst, self.order_type());
        put_le16(&mut dst, (RAIL_PDU_HEADER_SIZE + body.len()) as u16);
        put_bytes(&mut dst, body.as_slice());
        assert(dst@ =~= order_bytes(*self));
        Ok(dst)
    }
}

impl ServerRailOrder {
    /// Decodes one whole order.
    pub fn decode(src: &[u8]) -> (order: Result<ServerRailOrder, RailDecodeError>)
        ensures
            order == server_order(src@),
    {
        if src.len() < RAIL_PDU_HEADER_SIZE {
            return Err(RailDecodeError::HeaderTruncated);
        }
        let order_type: u16 = get_le16(src, 0);
        if order_type == TS_RAIL_ORDER_HANDSHAKE || order_type == TS_RAIL_ORDER_HANDSHAKE_EX {
            Ok(ServerRailOrder::Handshake)
        } else if order_type == TS_RAIL_ORDER_EXEC_RESULT {
            if src.len() - RAIL_PDU_HEADER_SIZE < 8 {
                return Err(RailDecodeError::ExecResultTruncated);
            }
            let exec_result: u16 = get_le16(src, 6);
            let raw_result: u32 = get_le32(src, 8);
            Ok(ServerRailOrder::ExecResult(ExecResult { exec_result, raw_result }))
        } else {
            Ok(ServerRailOrder::Other(order_type))
        }
    }
}

/// An encoded order is as long as its own length field says, and begins with
/// its type.
pub proof fn law_order_length_field(order: ClientRailOrder)
    requires
        order_size(order) <= 0xFFFF,
    ensures
        order_bytes(order).len() == order_size(order),
        le16_at(order_bytes(order), 0) == type_of(order),
        le16_at(order_bytes(order), 2) == order_bytes(order).len(),
{
    let size = order_size(order) as u16;
    crate::wire::law_le16_round_trip(type_of(order), Seq::empty(), le16_bytes(size) + body_bytes(order));
    assert(Seq::<u8>::empty() + le16_bytes(type_of(order)) + (le16_bytes(size) + body_bytes(order))
        =~= order_bytes(order));
    crate::wire::law_le16_round_trip(size, le16_bytes(type_of(order)), body_bytes(order));
}

/// The three texts of an encoded launch read back as they were given, each by
/// its own length.
pub proof fn law_exec_texts_read_back(exe_or_file: String, working_dir: String, arguments: String)
    requires
        order_size((ClientRailOrder::Exec { exe_or_file, working_dir, arguments })) <= 0xFFFF,
    ensures
        ({
            let bytes = order_bytes((ClientRailOrder::Exec { exe_or_file, working_dir, arguments }));
            let exe_len = le16_at(bytes, 6) as int;
            let dir_len = le16_at(bytes, 8) as int;
            let args_len = le16_at(bytes, 10) as int;
            &&& bytes.len() == 12 + exe_len + dir_len + args_len
            &&& crate::utf16::decode(crate::utf16::units_of(bytes.subrange(12, 12 + exe_len))) == exe_or_file@
            &&& crate::utf16::decode(
                crate::utf16::units_of(bytes.subrange(12 + exe_len, 12 + exe_len + dir_len)),
            ) == working_dir@
            &&& crate::utf16::decode(
                crate::utf16::units_of(
                    bytes.subrange(12 + exe_len + dir_len, 12 + exe_len + dir_len + args_len),
                ),
            ) == arguments@
        }),
{
    let order = ClientRailOrder::Exec { exe_or_file, working_dir, arguments };
    let exe = text_bytes(exe_or_file@);
    let dir = text_bytes(working_dir@);
    let args = text_bytes(arguments@);
    let bytes = order_bytes(order);
    crate::utf16::law_text_round_trip(exe_or_file@);
    crate::utf16::law_text_round_trip(working_dir@);
    crate::utf16::law_text_round_trip(arguments@);
    let head = le16_bytes(type_of(order)) + le16_bytes(order_size(order) as u16) + le16_bytes(RAIL_EXEC_FLAGS);
    let lens = le16_bytes(exe.len() as u16) + le16_bytes(dir.len() as u16) + le16_bytes(args.len() as u16);
    assert(bytes =~= head + lens + exe + dir + args);
    assert(bytes[6] == lens[0] && bytes[7] == lens[1] && bytes[8] == lens[2] && bytes[9] == lens[3] && bytes[10]
        == lens[4] && bytes[11] == lens[5]);
    let exe_end = 12 + exe.len() as int;
    let dir_end = exe_end + dir.len() as int;
    assert(bytes.subrange(12, exe_end) =~= exe);
    assert(bytes.subrange(exe_end, dir_end) =~= dir);
    assert(bytes.subrange(dir_end, dir_end + args.len() as int) =~= args);
}

/// A 32-bit number at a place, the lowest byte first.
pub open spec fn number_at(bytes: Seq<u8>, at: int) -> int {
    bytes[at] + 0x100 * bytes[at + 1] + 0x1_0000 * bytes[at + 2] + 0x100_0000 * bytes[at + 3]
}

/// A 16-bit number at a place, the lower byte first.
pub open spec fn short_at(bytes: Seq<u8>, at: int) -> int {
    bytes[at] + 0x100 * bytes[at + 1]
}

/// Each order is written with its own type, its length and, behind these, its values, each in
/// its place.
pub proof fn law_orders_are_written_out(order: ClientRailOrder)
    requires
        order_size(order) <= 0xFFFF,
    ensures
        ({
            let bytes = order_bytes(order);
            let kind = short_at(bytes, 0);
            &&& short_at(bytes, 2) == bytes.len()
            &&& match order {
                ClientRailOrder::Handshake { build_number } => bytes.len() == 8 && kind == 0x05 && number_at(bytes, 4)
                    == build_number,
                ClientRailOrder::ClientStatus { flags } => bytes.len() == 8 && kind == 0x0B && number_at(bytes, 4)
                    == flags,
                ClientRailOrder::SysParamHighContrastOff => bytes.len() == 18 && kind == 0x03 && number_at(bytes, 4)
                    == 0x43 && number_at(bytes, 8) == 0 && number_at(bytes, 12) == 2 && short_at(bytes, 16) == 0,
                ClientRailOrder::SysParamWorkArea { width, height } => bytes.len() == 16 && kind == 0x03 && number_at(
                    bytes,
                    4,
                ) == 0x2F && short_at(bytes, 8) == 0 && short_at(bytes, 10) == 0 && short_at(bytes, 12) == width
                    && short_at(bytes, 14) == height,
                ClientRailOrder::Exec { .. } => kind == 0x01 && short_at(bytes, 4) == 9,
                ClientRailOrder::Activate { window_id, enabled } => bytes.len() == 9 && kind == 0x02 && number_at(
                    bytes,
                    4,
                ) == window_id && (bytes[8] == 1) == enabled && bytes[8] <= 1,
                ClientRailOrder::SysCommand { window_id, command } => bytes.len() == 10 && kind == 0x04 && number_at(
                    bytes,
                    4,
                ) == window_id && short_at(bytes, 8) == command,
            }
        }),
{
    let bytes = order_bytes(order);
    let body = body_bytes(order);
    let size = order_size(order) as u16;
    assert(bytes.len() == 4 + body.len());
    assert(bytes.subrange(0, 2) =~= le16_bytes(type_of(order)));
    assert(bytes.subrange(2, 4) =~= le16_bytes(size));
    assert(bytes.skip(4) =~= body);
    lemma_short(bytes, 0, type_of(order));
    lemma_short(bytes, 2, size);
    match order {
        ClientRailOrder::Handshake { build_number } => {
            assert(bytes.subrange(4, 8) =~= le32_bytes(build_number));
            lemma_number(bytes, 4, build_number);
        },
        ClientRailOrder::ClientStatus { flags } => {
            assert(bytes.subrange(4, 8) =~= le32_bytes(flags));
            lemma_number(bytes, 4, flags);
        },
        ClientRailOrder::SysParamHighContrastOff => {
            assert(bytes.subrange(4, 8) =~= le32_bytes(SPI_SET_HIGH_CONTRAST));
            assert(bytes.subrange(8, 12) =~= le32_bytes(0));
            assert(bytes.subrange(12, 16) =~= le32_bytes(2));
            assert(bytes.subrange(16, 18) =~= le16_bytes(0));
            lemma_number(bytes, 4, SPI_SET_HIGH_CONTRAST);
            lemma_number(bytes, 8, 0);
            lemma_number(bytes, 12, 2);
            lemma_short(bytes, 16, 0);
        },
        ClientRailOrder::SysParamWorkArea { width, height } => {
            assert(bytes.subrange(4, 8) =~= le32_bytes(SPI_SET_WORK_AREA));
            assert(bytes.subrange(8, 10) =~= le16_bytes(0));
            assert(bytes.subrange(10, 12) =~= le16_bytes(0));
            assert(bytes.subrange(12, 14) =~= le16_bytes(width));
            assert(bytes.subrange(14, 16) =~= le16_bytes(height));
            lemma_number(bytes, 4, SPI_SET_WORK_AREA);
            lemma_short(bytes, 8, 0);
            lemma_short(bytes, 10, 0);
            lemma_short(bytes, 12, width);
            lemma_short(bytes, 14, height);
        },
        ClientRailOrder::Exec { .. } => {
            assert(bytes.subrange(4, 6) =~= le16_bytes(RAIL_EXEC_FLAGS));
            lemma_short(bytes, 4, RAIL_EXEC_FLAGS);
        },
        ClientRailOrder::Activate { window_id, enabled } => {
            assert(bytes.subrange(4, 8) =~= le32_bytes(window_id));
            lemma_number(bytes, 4, window_id);
            assert(bytes[8] == body[4]);
        },
        ClientRailOrder::SysCommand { window_id, command } => {
            assert(bytes.subrange(4, 8) =~= le32_bytes(window_id));
            assert(bytes.subrange(8, 10) =~= le16_bytes(command));
            lemma_number(bytes, 4, window_id);
            lemma_short(bytes, 8, command);
        },
    }
}

proof fn lemma_number(bytes: Seq<u8>, at: int, value: u32)
    requires
        0 <= at,
        at + 4 <= bytes.len(),
        bytes.subrange(at, at + 4) == le32_bytes(value),
    ensures
        number_at(bytes, at) == value,
{
    let own = bytes.subrange(at, at + 4);
    assert(bytes[at] == own[0] && bytes[at + 1] == own[1] && bytes[at + 2] == own[2] && bytes[at + 3] == own[3]);
}

proof fn lemma_short(bytes: Seq<u8>, at: int, value: u16)
    requires
        0 <= at,
        at + 2 <= bytes.len(),
        bytes.subrange(at, at + 2) == le16_bytes(value),
    ensures
        short_at(bytes, at) == value,
{
    let own = bytes.subrange(at, at + 2);
    assert(bytes[at] == own[0] && bytes[at + 1] == own[1]);
}

/// A server's order says by its type what it is: 5 and 0x13 are handshakes, 0x80 is the outcome
/// of the launch, with the result in two bytes at 6 and its cause in four at 8; any other is
/// told by its type. One without a header, or an outcome cut short, is an error.
pub proof fn law_server_orders_are_told_by_type(src: Seq<u8>)
    ensures
        ({
            let kind = short_at(src, 0);
            &&& src.len() < 4 ==> server_order(src) == Err::<ServerRailOrder, RailDecodeError>(
                RailDecodeError::HeaderTruncated,
            )
            &&& src.len() >= 4 && (kind == 0x05 || kind == 0x13) ==> server_order(src) == Ok::<
                ServerRailOrder,
                RailDecodeError,
            >(ServerRailOrder::Handshake)
            &&& 4 <= src.len() < 12 && kind == 0x80 ==> server_order(src) == Err::<ServerRailOrder, RailDecodeError>(
                RailDecodeError::ExecResultTruncated,
            )
            &&& src.len() >= 12 && kind == 0x80 ==> {
                &&& server_order(src) matches Ok(ServerRailOrder::ExecResult(result))
                &&& result.exec_result == short_at(src, 6)
                &&& result.raw_result == number_at(src, 8)
            }
            &&& src.len() >= 4 && kind != 0x05 && kind != 0x13 && kind != 0x80 ==> {
                &&& server_order(src) matches Ok(ServerRailOrder::Other(other))
                &&& other == kind
            }
        }),
{
}

} // verus!
