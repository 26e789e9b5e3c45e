//! The packet catalogs: one closed set of message variants per direction per
//! role, each variant tagged by a unique leading discriminant byte.
//!
//! Every catalog has a specification-level encoding of a whole wire message
//! (`enc_*`, discriminant first) and a matching decoder (`dec_*`). Decoders
//! ignore trailing bytes after a fixed-size variant, since one packet
//! occupies exactly one transport message; the variants carrying an inline
//! `GameData` consume the rest of the buffer.

use vstd::prelude::*;

verus! {

use crate::packet::{
    PacketReader, PacketWriter, Readable, Writable, Either, enc_u8, dec_u8, enc_bool, dec_bool,
    enc_u32, dec_u32, enc_u64, dec_u64, enc_usize, dec_usize, lemma_u8_round_trip,
    lemma_bool_round_trip, lemma_u32_round_trip, lemma_u64_round_trip, lemma_usize_round_trip,
    lemma_enc_len_facts,
};
use crate::game::{
    GameData, GameDataModel, BuiltinGames, enc_game_data, dec_game_data, lemma_game_data_round_trip,
};
use crate::session_manager::Team;

// ---------------------------------------------------------------------------
// Catalog traits
// ---------------------------------------------------------------------------

/// A packet the server sends. Its wire message is the discriminant byte
/// followed by the fields in declared order.
pub trait ClientboundPacket: View + Sized {
    /// The full wire message of this packet, discriminant first.
    spec fn spec_msg(&self) -> Seq<u8>;

    /// The discriminant byte.
    fn id(&self) -> (r: u8)
        ensures
            self.spec_msg().len() >= 1,
            r == self.spec_msg()[0],
    ;

    /// Appends the fields (everything after the discriminant).
    fn write(self, writer: &mut PacketWriter)
        ensures
            final(writer)@ == old(writer)@ + self.spec_msg().skip(1),
    ;
}

/// A packet the server receives. Decoding dispatches on the discriminant
/// byte; an unrecognized discriminant is a decode failure. Sum-typed game
/// references are validated against the built-in catalog while decoding.
pub trait ServerboundPacket: View + Sized {
    /// Decodes a whole wire message, given the size of the built-in catalog.
    spec fn spec_dec_msg(s: Seq<u8>, catalog_len: int) -> Option<Self::V>;

    fn read(reader: &mut PacketReader, builtin: &BuiltinGames) -> (r: Option<Self>)
        requires
            old(reader).wf(),
        ensures
            final(reader).wf(),
            final(reader).buf@ == old(reader).buf@,
            match Self::spec_dec_msg(old(reader).remaining(), builtin.games@.len() as int) {
                Some(m) => r matches Some(p) && p@ == m,
                None => r is None,
            },
    ;
}

/// Encodes a clientbound packet into the single transport message that
/// carries it: discriminant byte, then fields.
pub fn into_bytes<T: ClientboundPacket>(packet: T) -> (r: Vec<u8>)
    ensures
        r@ == packet.spec_msg(),
{
    let mut writer = PacketWriter::new();
    writer.write_u8(packet.id());
    let ghost msg = packet.spec_msg();
    packet.write(&mut writer);
    proof {
        assert(seq![msg[0]] + msg.skip(1) =~= msg);
        assert(Seq::<u8>::empty() + seq![msg[0]] =~= seq![msg[0]]);
    }
    writer.get()
}

/// Decodes one serverbound packet from one transport message.
pub fn from_bytes<T: ServerboundPacket>(bytes: Vec<u8>, builtin: &BuiltinGames) -> (r: Option<T>)
    ensures
        match T::spec_dec_msg(bytes@, builtin.games@.len() as int) {
            Some(m) => r matches Some(p) && p@ == m,
            None => r is None,
        },
{
    let mut reader = PacketReader::new(bytes);
    T::read(&mut reader, builtin)
}

// ---------------------------------------------------------------------------
// Host-bound packets (server -> host)
// ---------------------------------------------------------------------------

/// Packets sent to the host connection.
#[derive(Debug, PartialEq)]
pub enum ClientboundHostPacket {
    SessionInfo(u32, GameData),
    Score(Team, u8, bool),
}

/// The abstract form of a host-bound packet.
pub enum ClientboundHostPacketModel {
    SessionInfo(u32, GameDataModel),
    Score(Team, u8, bool),
}

impl View for ClientboundHostPacket {
    type V = ClientboundHostPacketModel;

    open spec fn view(&self) -> ClientboundHostPacketModel {
        match self {
            ClientboundHostPacket::SessionInfo(id, data) => ClientboundHostPacketModel::SessionInfo(
                *id,
                data@,
            ),
            ClientboundHostPacket::Score(team, index, undo) => ClientboundHostPacketModel::Score(
                *team,
                *index,
                *undo,
            ),
        }
    }
}

impl ClientboundHostPacketModel {
    pub open spec fn wf(self) -> bool {
        match self {
            ClientboundHostPacketModel::SessionInfo(_, data) => data.wf(),
            ClientboundHostPacketModel::Score(_, _, _) => true,
        }
    }
}

pub open spec fn enc_cb_host(m: ClientboundHostPacketModel) -> Seq<u8> {
    match m {
        ClientboundHostPacketModel::SessionInfo(id, data) => seq![0u8] + enc_u32(id)
            + enc_game_data(data),
        ClientboundHostPacketModel::Score(team, index, undo) => seq![1u8] + enc_u8(team.spec_tag())
            + enc_u8(index) + enc_bool(undo),
    }
}

pub open spec fn dec_cb_host(s: Seq<u8>) -> Option<ClientboundHostPacketModel> {
    if s.len() < 1 {
        None
    } else {
        let body = s.skip(1);
        if s[0] == 0 {
            match dec_u32(body) {
                None => None,
                Some((id, n)) => match dec_game_data(body.skip(n)) {
                    None => None,
                    Some(data) => Some(ClientboundHostPacketModel::SessionInfo(id, data)),
                },
            }
        } else if s[0] == 1 {
            match dec_u8(body) {
                None => None,
                Some((tag, a)) => match Team::spec_from_tag(tag) {
                    None => None,
                    Some(team) => match dec_u8(body.skip(a)) {
                        None => None,
                        Some((index, b)) => match dec_bool(body.skip(a + b)) {
                            None => None,
                            Some((undo, _c)) => Some(
                                ClientboundHostPacketModel::Score(team, index, undo),
                            ),
                        },
                    },
                },
            }
        } else {
            None
        }
    }
}

impl ClientboundPacket for ClientboundHostPacket {
    open spec fn spec_msg(&self) -> Seq<u8> {
        enc_cb_host(self@)
    }

    fn id(&self) -> (r: u8) {
        match self {
            ClientboundHostPacket::SessionInfo(..) => 0,
            ClientboundHostPacket::Score(..) => 1,
        }
    }

    fn write(self, writer: &mut PacketWriter) {
        let ghost m = self@;
        match self {
            ClientboundHostPacket::SessionInfo(id, data) => {
                writer.write(id);
                writer.write(data);
                proof {
                    assert(final(writer)@ =~= old(writer)@ + enc_cb_host(m).skip(1));
                }
            },
            ClientboundHostPacket::Score(team, index, undo) => {
                writer.write(team);
                writer.write(index);
                writer.write(undo);
                proof {
                    assert(final(writer)@ =~= old(writer)@ + enc_cb_host(m).skip(1));
                }
            },
        }
    }
}

impl ClientboundHostPacket {
    /// Decodes one host-bound packet from the front of the reader.
    pub fn read(reader: &mut PacketReader) -> (r: Option<Self>)
        requires
            old(reader).wf(),
        ensures
            final(reader).wf(),
            final(reader).buf@ == old(reader).buf@,
            match dec_cb_host(old(reader).remaining()) {
                Some(m) => r matches Some(p) && p@ == m,
                None => r is None,
            },
    {
        let ghost s = old(reader).remaining();
        let id = match reader.read_u8() {
            Some(v) => v,
            None => {
                return None;
            },
        };
        if id == 0 {
            let session_id: u32 = match reader.read() {
                Some(v) => v,
                None => {
                    return None;
                },
            };
            proof {
                assert(s.skip(1).skip(4) =~= s.skip(5));
                assert(reader.remaining() == s.skip(5));
            }
            let data = match GameData::read(reader) {
                Some(v) => v,
                None => {
                    return None;
                },
            };
            Some(ClientboundHostPacket::SessionInfo(session_id, data))
        } else if id == 1 {
            let tag = match reader.read_u8() {
                Some(v) => v,
                None => {
                    return None;
                },
            };
            let team = match Team::from_tag(tag) {
                Some(v) => v,
                None => {
                    return None;
                },
            };
            let index = match reader.read_u8() {
                Some(v) => v,
                None => {
                    return None;
                },
            };
            let undo = match reader.read() {
                Some(v) => v,
                None => {
                    return None;
                },
            };
            proof {
                assert(s.skip(1).skip(1) =~= s.skip(2));
                assert(s.skip(2).skip(1) =~= s.skip(3));
            }
            Some(ClientboundHostPacket::Score(team, index, undo))
        } else {
            None
        }
    }
}

/// Round trip: a host-bound packet's encoding decodes back to the packet.
pub proof fn lemma_cb_host_round_trip(m: ClientboundHostPacketModel)
    requires
        m.wf(),
    ensures
        dec_cb_host(enc_cb_host(m)) == Some(m),
{
    let s = enc_cb_host(m);
    match m {
        ClientboundHostPacketModel::SessionInfo(id, data) => {
            lemma_u32_round_trip(id, enc_game_data(data));
            assert(s.skip(1) =~= enc_u32(id) + enc_game_data(data));
            lemma_enc_len_facts();
            assert(s.skip(1).skip(4) =~= enc_game_data(data));
            lemma_game_data_round_trip(data);
        },
        ClientboundHostPacketModel::Score(team, index, undo) => {
            let body = enc_u8(team.spec_tag()) + enc_u8(index) + enc_bool(undo);
            assert(s.skip(1) =~= body);
            lemma_u8_round_trip(team.spec_tag(), enc_u8(index) + enc_bool(undo));
            assert(body =~= enc_u8(team.spec_tag()) + (enc_u8(index) + enc_bool(undo)));
            lemma_u8_round_trip(index, enc_bool(undo));
            assert(body.skip(1) =~= enc_u8(index) + enc_bool(undo));
            lemma_bool_round_trip(undo, Seq::empty());
            assert(body.skip(2) =~= enc_bool(undo) + Seq::<u8>::empty());
        },
    }
}

// ---------------------------------------------------------------------------
// User-bound packets (server -> user)
// ---------------------------------------------------------------------------

/// Packets sent to a user connection.
#[derive(Debug, PartialEq)]
pub enum ClientboundUserPacket {
    SessionInfo(bool, GameData),
    StartGame,
    EndGame,
}

/// The abstract form of a user-bound packet.
pub enum ClientboundUserPacketModel {
    SessionInfo(bool, GameDataModel),
    StartGame,
    EndGame,
}

impl View for ClientboundUserPacket {
    type V = ClientboundUserPacketModel;

    open spec fn view(&self) -> ClientboundUserPacketModel {
        match self {
            ClientboundUserPacket::SessionInfo(started, data) => {
                ClientboundUserPacketModel::SessionInfo(*started, data@)
            },
            ClientboundUserPacket::StartGame => ClientboundUserPacketModel::StartGame,
            ClientboundUserPacket::EndGame => ClientboundUserPacketModel::EndGame,
        }
    }
}

impl ClientboundUserPacketModel {
    pub open spec fn wf(self) -> bool {
        match self {
            ClientboundUserPacketModel::SessionInfo(_, data) => data.wf(),
            _ => true,
        }
    }
}

pub open spec fn enc_cb_user(m: ClientboundUserPacketModel) -> Seq<u8> {
    match m {
        ClientboundUserPacketModel::SessionInfo(started, data) => seq![0u8] + enc_bool(started)
            + enc_game_data(data),
        ClientboundUserPacketModel::StartGame => seq![1u8],
        ClientboundUserPacketModel::EndGame => seq![2u8],
    }
}

pub open spec fn dec_cb_user(s: Seq<u8>) -> Option<ClientboundUserPacketModel> {
    if s.len() < 1 {
        None
    } else {
        let body = s.skip(1);
        if s[0] == 0 {
            match dec_bool(body) {
                None => None,
                Some((started, n)) => match dec_game_data(body.skip(n)) {
                    None => None,
                    Some(data) => Some(ClientboundUserPacketModel::SessionInfo(started, data)),
                },
            }
        } else if s[0] == 1 {
            Some(ClientboundUserPacketModel::StartGame)
        } else if s[0] == 2 {
            Some(ClientboundUserPacketModel::EndGame)
        } else {
            None
        }
    }
}

impl ClientboundPacket for ClientboundUserPacket {
    open spec fn spec_msg(&self) -> Seq<u8> {
        enc_cb_user(self@)
    }

    fn id(&self) -> (r: u8) {
        match self {
            ClientboundUserPacket::SessionInfo(..) => 0,
            ClientboundUserPacket::StartGame => 1,
            ClientboundUserPacket::EndGame => 2,
        }
    }

    fn write(self, writer: &mut PacketWriter) {
        let ghost m = self@;
        match self {
            ClientboundUserPacket::SessionInfo(started, data) => {
                writer.write(started);
                writer.write(data);
                proof {
                    assert(final(writer)@ =~= old(writer)@ + enc_cb_user(m).skip(1));
                }
            },
            ClientboundUserPacket::StartGame => {
                proof {
                    assert(enc_cb_user(m).skip(1) =~= Seq::<u8>::empty());
                    assert(final(writer)@ =~= old(writer)@ + enc_cb_user(m).skip(1));
                }
            },
            ClientboundUserPacket::EndGame => {
                proof {
                    assert(enc_cb_user(m).skip(1) =~= Seq::<u8>::empty());
                    assert(final(writer)@ =~= old(writer)@ + enc_cb_user(m).skip(1));
                }
            },
        }
    }
}

impl ClientboundUserPacket {
    /// Decodes one user-bound packet from the front of the reader.
    pub fn read(reader: &mut PacketReader) -> (r: Option<Self>)
        requires
            old(reader).wf(),
        ensures
            final(reader).wf(),
            final(reader).buf@ == old(reader).buf@,
            match dec_cb_user(old(reader).remaining()) {
                Some(m) => r matches Some(p) && p@ == m,
                None => r is None,
            },
    {
        let ghost s = old(reader).remaining();
        let id = match reader.read_u8() {
            Some(v) => v,
            None => {
                return None;
            },
        };
        if id == 0 {
            let started: bool = match reader.read() {
                Some(v) => v,
                None => {
                    return None;
                },
            };
            proof {
                assert(s.skip(1).skip(1) =~= s.skip(2));
                assert(reader.remaining() == s.skip(2));
            }
            let data = match GameData::read(reader) {
                Some(v) => v,
                None => {
                    return None;
                },
            };
            Some(ClientboundUserPacket::SessionInfo(started, data))
        } else if id == 1 {
            Some(ClientboundUserPacket::StartGame)
        } else if id == 2 {
            Some(ClientboundUserPacket::EndGame)
        } else {
            None
        }
    }
}

/// Round trip: a user-bound packet's encoding decodes back to the packet.
pub proof fn lemma_cb_user_round_trip(m: ClientboundUserPacketModel)
    requires
        m.wf(),
    ensures
        dec_cb_user(enc_cb_user(m)) == Some(m),
{
    let s = enc_cb_user(m);
    match m {
        ClientboundUserPacketModel::SessionInfo(started, data) => {
            lemma_bool_round_trip(started, enc_game_data(data));
            assert(s.skip(1) =~= enc_bool(started) + enc_game_data(data));
            assert(s.skip(1).skip(1) =~= enc_game_data(data));
            lemma_game_data_round_trip(data);
        },
        ClientboundUserPacketModel::StartGame => {},
        ClientboundUserPacketModel::EndGame => {},
    }
}

// ---------------------------------------------------------------------------
// Host-originated packets (host -> server)
// ---------------------------------------------------------------------------

/// Packets a host connection sends to the server.
#[derive(Debug, PartialEq)]
pub enum ServerboundHostPacket {
    StartGame { time_started: u64 },
    EndGame,
    PauseGame,
    UnpauseGame { time_paused: u64 },
    GameData { game_type: Either<usize, GameData> },
}

/// The abstract form of a host-originated packet. A decoded `Left` game
/// reference is always a valid index into the built-in catalog.
pub enum ServerboundHostPacketModel {
    StartGame { time_started: u64 },
    EndGame,
    PauseGame,
    UnpauseGame { time_paused: u64 },
    GameData { game_type: Either<usize, GameDataModel> },
}

impl View for ServerboundHostPacket {
    type V = ServerboundHostPacketModel;

    open spec fn view(&self) -> ServerboundHostPacketModel {
        match self {
            ServerboundHostPacket::StartGame { time_started } => {
                ServerboundHostPacketModel::StartGame { time_started: *time_started }
            },
            ServerboundHostPacket::EndGame => ServerboundHostPacketModel::EndGame,
            ServerboundHostPacket::PauseGame => ServerboundHostPacketModel::PauseGame,
            ServerboundHostPacket::UnpauseGame { time_paused } => {
                ServerboundHostPacketModel::UnpauseGame { time_paused: *time_paused }
            },
            ServerboundHostPacket::GameData { game_type } => {
                ServerboundHostPacketModel::GameData { game_type: game_type@ }
            },
        }
    }
}

impl ServerboundHostPacketModel {
    /// Valid for encoding against a catalog of the given size.
    pub open spec fn wf(self, catalog_len: int) -> bool {
        match self {
            ServerboundHostPacketModel::GameData { game_type } => match game_type {
                Either::Left(index) => index < catalog_len,
                Either::Right(data) => data.wf(),
            },
            _ => true,
        }
    }
}

pub open spec fn enc_sb_host(m: ServerboundHostPacketModel) -> Seq<u8> {
    match m {
        ServerboundHostPacketModel::StartGame { time_started } => seq![0u8] + enc_u64(
            time_started,
        ),
        ServerboundHostPacketModel::EndGame => seq![1u8],
        ServerboundHostPacketModel::PauseGame => seq![2u8],
        ServerboundHostPacketModel::UnpauseGame { time_paused } => seq![3u8] + enc_u64(
            time_paused,
        ),
        ServerboundHostPacketModel::GameData { game_type } => match game_type {
            Either::Left(index) => seq![4u8, 0u8] + enc_usize(index),
            Either::Right(data) => seq![4u8, 1u8] + enc_game_data(data),
        },
    }
}

pub open spec fn dec_sb_host(s: Seq<u8>, catalog_len: int) -> Option<ServerboundHostPacketModel> {
    if s.len() < 1 {
        None
    } else {
        let body = s.skip(1);
        if s[0] == 0 {
            match dec_u64(body) {
                None => None,
                Some((time_started, _n)) => Some(
                    ServerboundHostPacketModel::StartGame { time_started },
                ),
            }
        } else if s[0] == 1 {
            Some(ServerboundHostPacketModel::EndGame)
        } else if s[0] == 2 {
            Some(ServerboundHostPacketModel::PauseGame)
        } else if s[0] == 3 {
            match dec_u64(body) {
                None => None,
                Some((time_paused, _n)) => Some(
                    ServerboundHostPacketModel::UnpauseGame { time_paused },
                ),
            }
        } else if s[0] == 4 {
            if body.len() < 1 {
                None
            } else {
                let rest = body.skip(1);
                if body[0] == 0 {
                    match dec_usize(rest) {
                        None => None,
                        Some((index, _n)) => if index < catalog_len {
                            Some(
                                ServerboundHostPacketModel::GameData {
                                    game_type: Either::Left(index),
                                },
                            )
                        } else {
                            None
                        },
                    }
                } else if body[0] == 1 {
                    match dec_game_data(rest) {
                        None => None,
                        Some(data) => Some(
                            ServerboundHostPacketModel::GameData {
                                game_type: Either::Right(data),
                            },
                        ),
                    }
                } else {
                    None
                }
            }
        } else {
            None
        }
    }
}

impl ServerboundPacket for ServerboundHostPacket {
    open spec fn spec_dec_msg(s: Seq<u8>, catalog_len: int) -> Option<ServerboundHostPacketModel> {
        dec_sb_host(s, catalog_len)
    }

    fn read(reader: &mut PacketReader, builtin: &BuiltinGames) -> (r: Option<Self>) {
        let ghost s = old(reader).remaining();
        let id = match reader.read_u8() {
            Some(v) => v,
            None => {
                return None;
            },
        };
        if id == 0 {
            let time_started: u64 = match reader.read() {
                Some(v) => v,
                None => {
                    return None;
                },
            };
            Some(ServerboundHostPacket::StartGame { time_started })
        } else if id == 1 {
            Some(ServerboundHostPacket::EndGame)
        } else if id == 2 {
            Some(ServerboundHostPacket::PauseGame)
        } else if id == 3 {
            let time_paused: u64 = match reader.read() {
                Some(v) => v,
                None => {
                    return None;
                },
            };
            Some(ServerboundHostPacket::UnpauseGame { time_paused })
        } else if id == 4 {
            let tag = match reader.read_u8() {
                Some(v) => v,
                None => {
                    return None;
                },
            };
            proof {
                assert(s.skip(1).skip(1) =~= s.skip(2));
            }
            if tag == 0 {
                let index: usize = match reader.read() {
                    Some(v) => v,
                    None => {
                        return None;
                    },
                };
                if index < builtin.games.len() {
                    Some(ServerboundHostPacket::GameData { game_type: Either::Left(index) })
                } else {
                    None
                }
            } else if tag == 1 {
                let data = match GameData::read(reader) {
                    Some(v) => v,
                    None => {
                        return None;
                    },
                };
                Some(ServerboundHostPacket::GameData { game_type: Either::Right(data) })
            } else {
                None
            }
        } else {
            None
        }
    }
}

/// Round trip: a host-originated packet that is valid for the catalog
/// encodes and decodes back to itself.
pub proof fn lemma_sb_host_round_trip(m: ServerboundHostPacketModel, catalog_len: int)
    requires
        m.wf(catalog_len),
    ensures
        dec_sb_host(enc_sb_host(m), catalog_len) == Some(m),
{
    let s = enc_sb_host(m);
    match m {
        ServerboundHostPacketModel::StartGame { time_started } => {
            lemma_u64_round_trip(time_started, Seq::empty());
            assert(s.skip(1) =~= enc_u64(time_started) + Seq::<u8>::empty());
        },
        ServerboundHostPacketModel::EndGame => {},
        ServerboundHostPacketModel::PauseGame => {},
        ServerboundHostPacketModel::UnpauseGame { time_paused } => {
            lemma_u64_round_trip(time_paused, Seq::empty());
            assert(s.skip(1) =~= enc_u64(time_paused) + Seq::<u8>::empty());
        },
        ServerboundHostPacketModel::GameData { game_type } => {
            match game_type {
                Either::Left(index) => {
                    lemma_usize_round_trip(index, Seq::empty());
                    assert(s.skip(1)[0] == 0u8);
                    assert(s.skip(1).skip(1) =~= enc_usize(index) + Seq::<u8>::empty());
                },
                Either::Right(data) => {
                    lemma_game_data_round_trip(data);
                    assert(s.skip(1)[0] == 1u8);
                    assert(s.skip(1).skip(1) =~= enc_game_data(data));
                },
            }
        },
    }
}

// ---------------------------------------------------------------------------
// User-originated packets (user -> server)
// ---------------------------------------------------------------------------

/// Packets a user connection sends to the server: scoring actions.
#[derive(Clone, Copy, Debug, PartialEq, Eq, Structural)]
pub enum ServerboundUserPacket {
    Score { score_type: u8, undo: bool },
}

impl View for ServerboundUserPacket {
    type V = ServerboundUserPacket;

    open spec fn view(&self) -> ServerboundUserPacket {
        *self
    }
}

pub open spec fn enc_sb_user(m: ServerboundUserPacket) -> Seq<u8> {
    match m {
        ServerboundUserPacket::Score { score_type, undo } => seq![0u8] + enc_u8(score_type)
            + enc_bool(undo),
    }
}

pub open spec fn dec_sb_user(s: Seq<u8>) -> Option<ServerboundUserPacket> {
    if s.len() < 1 {
        None
    } else {
        let body = s.skip(1);
        if s[0] == 0 {
            match dec_u8(body) {
                None => None,
                Some((score_type, a)) => match dec_bool(body.skip(a)) {
                    None => None,
                    Some((undo, _b)) => Some(ServerboundUserPacket::Score { score_type, undo }),
                },
            }
        } else {
            None
        }
    }
}

impl ServerboundPacket for ServerboundUserPacket {
    open spec fn spec_dec_msg(s: Seq<u8>, catalog_len: int) -> Option<ServerboundUserPacket> {
        dec_sb_user(s)
    }

    fn read(reader: &mut PacketReader, builtin: &BuiltinGames) -> (r: Option<Self>) {
        ServerboundUserPacket::read_packet(reader)
    }
}

impl ServerboundUserPacket {
    /// Decodes one user-originated packet from the front of the reader.
    /// User packets never reference the built-in catalog.
    pub fn read_packet(reader: &mut PacketReader) -> (r: Option<Self>)
        requires
            old(reader).wf(),
        ensures
            final(reader).wf(),
            final(reader).buf@ == old(reader).buf@,
            match dec_sb_user(old(reader).remaining()) {
                Some(m) => r == Some(m),
                None => r is None,
            },
    {
        let ghost s = old(reader).remaining();
        let id = match reader.read_u8() {
            Some(v) => v,
            None => {
                return None;
            },
        };
        if id == 0 {
            let score_type = match reader.read_u8() {
                Some(v) => v,
                None => {
                    return None;
                },
            };
            let undo: bool = match reader.read() {
                Some(v) => v,
                None => {
                    return None;
                },
            };
            proof {
                assert(s.skip(1).skip(1) =~= s.skip(2));
            }
            Some(ServerboundUserPacket::Score { score_type, undo })
        } else {
            None
        }
    }

    /// Decodes one user-originated packet from one transport message.
    pub fn decode(bytes: Vec<u8>) -> (r: Option<Self>)
        ensures
            match dec_sb_user(bytes@) {
                Some(m) => r == Some(m),
                None => r is None,
            },
    {
        let mut reader = PacketReader::new(bytes);
        ServerboundUserPacket::read_packet(&mut reader)
    }
    /// Encodes this packet into the single transport message that carries it.
    pub fn encode(self) -> (r: Vec<u8>)
        ensures
            r@ == enc_sb_user(self),
    {
        let mut writer = PacketWriter::new();
        match self {
            ServerboundUserPacket::Score { score_type, undo } => {
                writer.write_u8(0);
                writer.write_u8(score_type);
                writer.write(undo);
                proof {
                    assert(writer@ =~= enc_sb_user(self));
                }
            },
        }
        writer.get()
    }
}

impl ServerboundHostPacket {
    /// Encodes this packet into the single transport message that carries it.
    pub fn encode(self) -> (r: Vec<u8>)
        ensures
            r@ == enc_sb_host(self@),
    {
        let ghost m = self@;
        let mut writer = PacketWriter::new();
        match self {
            ServerboundHostPacket::StartGame { time_started } => {
                writer.write_u8(0);
                writer.write(time_started);
            },
            ServerboundHostPacket::EndGame => {
                writer.write_u8(1);
            },
            ServerboundHostPacket::PauseGame => {
                writer.write_u8(2);
            },
            ServerboundHostPacket::UnpauseGame { time_paused } => {
                writer.write_u8(3);
                writer.write(time_paused);
            },
            ServerboundHostPacket::GameData { game_type } => {
                writer.write_u8(4);
                match game_type {
                    Either::Left(index) => {
                        writer.write_u8(0);
                        writer.write(index);
                    },
                    Either::Right(data) => {
                        writer.write_u8(1);
                        writer.write(data);
                    },
                }
            },
        }
        proof {
            assert(writer@ =~= enc_sb_host(m));
        }
        writer.get()
    }
}

/// A truncated host-bound packet fails to decode, except that a truncated
/// session-info packet may decode to the same identifier with the
/// score-point table cut to a strict prefix at an entry boundary.
pub proof fn lemma_cb_host_truncation(m: ClientboundHostPacketModel, k: int)
    requires
        m.wf(),
        0 <= k < enc_cb_host(m).len(),
    ensures
        match m {
            ClientboundHostPacketModel::SessionInfo(id, data) => {
                match dec_cb_host(enc_cb_host(m).take(k)) {
                    None => true,
                    Some(m2) => m2 matches ClientboundHostPacketModel::SessionInfo(id2, d2)
                        && id2 == id && d2.duration == data.duration && d2.score_points.len()
                        < data.score_points.len() && d2.score_points == data.score_points.take(
                        d2.score_points.len() as int,
                    ),
                }
            },
            ClientboundHostPacketModel::Score(_, _, _) => dec_cb_host(
                enc_cb_host(m).take(k),
            ) is None,
        },
{
    lemma_enc_len_facts();
    let s = enc_cb_host(m).take(k);
    match m {
        ClientboundHostPacketModel::SessionInfo(id, data) => {
            if k == 0 {
            } else if k < 5 {
                assert(s =~= (seq![0u8] + enc_u32(id)).take(k));
                assert(s.skip(1) =~= enc_u32(id).take(k - 1));
            } else {
                let e = enc_game_data(data);
                assert(s =~= seq![0u8] + (enc_u32(id) + e.take(k - 5)));
                lemma_u32_round_trip(id, e.take(k - 5));
                assert(s.skip(1) =~= enc_u32(id) + e.take(k - 5));
                assert(s.skip(1).skip(4) =~= e.take(k - 5));
                crate::game::lemma_game_data_truncation(data, k - 5);
            }
        },
        ClientboundHostPacketModel::Score(team, index, undo) => {
            let body = enc_u8(team.spec_tag()) + enc_u8(index) + enc_bool(undo);
            if k == 0 {
            } else {
                assert(s.skip(1) =~= body.take(k - 1));
                if k == 1 {
                } else {
                    lemma_u8_round_trip(team.spec_tag(), (enc_u8(index) + enc_bool(undo)).take(
                        k - 2,
                    ));
                    assert(body.take(k - 1) =~= enc_u8(team.spec_tag()) + (enc_u8(index)
                        + enc_bool(undo)).take(k - 2));
                    assert(body.take(k - 1).skip(1) =~= (enc_u8(index) + enc_bool(undo)).take(
                        k - 2,
                    ));
                    if k == 2 {
                    } else {
                        assert(k == 3);
                        lemma_u8_round_trip(index, enc_bool(undo).take(0));
                        assert((enc_u8(index) + enc_bool(undo)).take(k - 2) =~= enc_u8(index)
                            + enc_bool(undo).take(0));
                        assert((enc_u8(index) + enc_bool(undo)).take(k - 2).skip(1)
                            =~= enc_bool(undo).take(0));
                    }
                }
            }
        },
    }
}

/// A truncated user-bound packet fails to decode, except that a truncated
/// session-info packet may decode to the same started flag with the
/// score-point table cut to a strict prefix at an entry boundary.
pub proof fn lemma_cb_user_truncation(m: ClientboundUserPacketModel, k: int)
    requires
        m.wf(),
        0 <= k < enc_cb_user(m).len(),
    ensures
        match m {
            ClientboundUserPacketModel::SessionInfo(started, data) => {
                match dec_cb_user(enc_cb_user(m).take(k)) {
                    None => true,
                    Some(m2) => m2 matches ClientboundUserPacketModel::SessionInfo(s2, d2)
                        && s2 == started && d2.duration == data.duration && d2.score_points.len()
                        < data.score_points.len() && d2.score_points == data.score_points.take(
                        d2.score_points.len() as int,
                    ),
                }
            },
            _ => dec_cb_user(enc_cb_user(m).take(k)) is None,
        },
{
    lemma_enc_len_facts();
    let s = enc_cb_user(m).take(k);
    match m {
        ClientboundUserPacketModel::SessionInfo(started, data) => {
            if k == 0 {
            } else if k == 1 {
                assert(s.skip(1) =~= Seq::<u8>::empty());
            } else {
                let e = enc_game_data(data);
                assert(s =~= seq![0u8] + (enc_bool(started) + e.take(k - 2)));
                lemma_bool_round_trip(started, e.take(k - 2));
                assert(s.skip(1) =~= enc_bool(started) + e.take(k - 2));
                assert(s.skip(1).skip(1) =~= e.take(k - 2));
                crate::game::lemma_game_data_truncation(data, k - 2);
            }
        },
        ClientboundUserPacketModel::StartGame => {},
        ClientboundUserPacketModel::EndGame => {},
    }
}

/// A truncated host-originated packet fails to decode, except that a
/// truncated inline game payload may decode to the same packet with the
/// score-point table cut to a strict prefix at an entry boundary.
pub proof fn lemma_sb_host_truncation(m: ServerboundHostPacketModel, catalog_len: int, k: int)
    requires
        m.wf(catalog_len),
        0 <= k < enc_sb_host(m).len(),
    ensures
        match m {
            ServerboundHostPacketModel::GameData { game_type: Either::Right(data) } => {
                match dec_sb_host(enc_sb_host(m).take(k), catalog_len) {
                    None => true,
                    Some(m2) => m2 matches ServerboundHostPacketModel::GameData {
                        game_type: Either::Right(d2),
                    } && d2.duration == data.duration && d2.score_points.len()
                        < data.score_points.len() && d2.score_points == data.score_points.take(
                        d2.score_points.len() as int,
                    ),
                }
            },
            _ => dec_sb_host(enc_sb_host(m).take(k), catalog_len) is None,
        },
{
    lemma_enc_len_facts();
    let s = enc_sb_host(m).take(k);
    match m {
        ServerboundHostPacketModel::StartGame { time_started } => {
            if k >= 1 {
                assert(s.skip(1) =~= enc_u64(time_started).take(k - 1));
            }
        },
        ServerboundHostPacketModel::EndGame => {},
        ServerboundHostPacketModel::PauseGame => {},
        ServerboundHostPacketModel::UnpauseGame { time_paused } => {
            if k >= 1 {
                assert(s.skip(1) =~= enc_u64(time_paused).take(k - 1));
            }
        },
        ServerboundHostPacketModel::GameData { game_type } => {
            match game_type {
                Either::Left(index) => {
                    if k == 0 {
                    } else if k == 1 {
                        assert(s.skip(1) =~= Seq::<u8>::empty());
                    } else {
                        assert(s =~= seq![4u8, 0u8] + enc_usize(index).take(k - 2));
                        assert(s.skip(1)[0] == 0u8);
                        assert(s.skip(1).skip(1) =~= enc_usize(index).take(k - 2));
                    }
                },
                Either::Right(data) => {
                    if k == 0 {
                    } else if k == 1 {
                        assert(s.skip(1) =~= Seq::<u8>::empty());
                    } else {
                        let e = enc_game_data(data);
                        assert(s =~= seq![4u8, 1u8] + e.take(k - 2));
                        assert(s.skip(1)[0] == 1u8);
                        assert(s.skip(1).skip(1) =~= e.take(k - 2));
                        crate::game::lemma_game_data_truncation(data, k - 2);
                    }
                },
            }
        },
    }
}

/// A truncated user-originated packet always fails to decode.
pub proof fn lemma_sb_user_truncation(m: ServerboundUserPacket, k: int)
    requires
        0 <= k < enc_sb_user(m).len(),
    ensures
        dec_sb_user(enc_sb_user(m).take(k)) is None,
{
    let s = enc_sb_user(m).take(k);
    match m {
        ServerboundUserPacket::Score { score_type, undo } => {
            if k == 0 {
            } else if k == 1 {
                assert(s.skip(1) =~= Seq::<u8>::empty());
            } else {
                assert(k == 2);
                lemma_u8_round_trip(score_type, enc_bool(undo).take(0));
                assert(s.skip(1) =~= enc_u8(score_type) + enc_bool(undo).take(0));
                assert(s.skip(1).skip(1) =~= enc_bool(undo).take(0));
            }
        },
    }
}

/// Round trip: a user-originated packet's encoding decodes back to itself.
pub proof fn lemma_sb_user_round_trip(m: ServerboundUserPacket)
    ensures
        dec_sb_user(enc_sb_user(m)) == Some(m),
{
    let s = enc_sb_user(m);
    match m {
        ServerboundUserPacket::Score { score_type, undo } => {
            lemma_u8_round_trip(score_type, enc_bool(undo));
            assert(s.skip(1) =~= enc_u8(score_type) + enc_bool(undo));
            lemma_bool_round_trip(undo, Seq::empty());
            assert(s.skip(1).skip(1) =~= enc_bool(undo) + Seq::<u8>::empty());
        },
    }
}

} // verus!
