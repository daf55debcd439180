use vstd::prelude::*;

verus! {

/// The largest message length that a client may announce.
pub const MAX_MSG_SIZE: i32 = 1024;

/// The user id (8 bytes, little endian) that comes before every message passed inside the
/// server.
pub const AUTHORIZED_INFO_SIZE: usize = 8;

/// The bytes of a `Header` on the wire: its type (1 byte) and its length (4 bytes).
pub const HEADER_SIZE: usize = 5;

/// The bytes of a `GameBasicInfo` on the wire: step 8, round 4, position 1, user id 8 and
/// room id 6.
pub const GAME_INFO_SIZE: usize = 27;

/// The kinds of messages.
#[derive(Clone, Copy, Debug, PartialEq, Eq, Structural)]
pub enum MsgType {
    RoomOp,
    RoomManageResult,
    RoomSnapshot,
    RoomUpdate,
    GameOp,
    GameOpPack,
    GameUpdate,
    GameRoundUpdate,
    QueryGameState,
    GameSnapshot,
    GameOver,
    Authen,
}

impl MsgType {
    /// The number of the kind on the wire.
    pub open spec fn spec_value(self) -> i8 {
        match self {
            MsgType::RoomOp => 10,
            MsgType::RoomManageResult => 11,
            MsgType::RoomSnapshot => 12,
            MsgType::RoomUpdate => 13,
            MsgType::GameOp => 20,
            MsgType::GameOpPack => 21,
            MsgType::GameUpdate => 22,
            MsgType::GameRoundUpdate => 23,
            MsgType::QueryGameState => 24,
            MsgType::GameSnapshot => 25,
            MsgType::GameOver => 26,
            MsgType::Authen => 6,
        }
    }

    pub fn value(&self) -> (r: i8)
        ensures
            r == self.spec_value(),
    {
        match self {
            MsgType::RoomOp => 10,
            MsgType::RoomManageResult => 11,
            MsgType::RoomSnapshot => 12,
            MsgType::RoomUpdate => 13,
            MsgType::GameOp => 20,
            MsgType::GameOpPack => 21,
            MsgType::GameUpdate => 22,
            MsgType::GameRoundUpdate => 23,
            MsgType::QueryGameState => 24,
            MsgType::GameSnapshot => 25,
            MsgType::GameOver => 26,
            MsgType::Authen => 6,
        }
    }

    /// Different kinds have different wire numbers: a number names at most one kind.
    pub proof fn lemma_value_injective(a: MsgType, b: MsgType)
        ensures
            a.spec_value() == b.spec_value() ==> a == b,
    {
    }

    /// The kind that a wire number stands for, if any.
    pub fn from_value(v: i8) -> (r: Option<MsgType>)
        ensures
            r matches Some(t) ==> t.spec_value() == v,
            r is None ==> forall|t: MsgType| t.spec_value() != v,
    {
        match v {
            10 => Some(MsgType::RoomOp),
            11 => Some(MsgType::RoomManageResult),
            12 => Some(MsgType::RoomSnapshot),
            13 => Some(MsgType::RoomUpdate),
            20 => Some(MsgType::GameOp),
            21 => Some(MsgType::GameOpPack),
            22 => Some(MsgType::GameUpdate),
            23 => Some(MsgType::GameRoundUpdate),
            24 => Some(MsgType::QueryGameState),
            25 => Some(MsgType::GameSnapshot),
            26 => Some(MsgType::GameOver),
            6 => Some(MsgType::Authen),
            _ => None,
        }
    }
}

/// Room requests.
#[derive(Clone, Copy, Debug, PartialEq, Eq, Structural)]
pub enum OpType {
    CreateRoom,
    JoinRoom,
    LeaveRoom,
    ReadyRoom,
    StartRoom,
    CancelReady,
}

impl OpType {
    pub open spec fn spec_value(self) -> i8 {
        match self {
            OpType::CreateRoom => 1,
            OpType::JoinRoom => 2,
            OpType::LeaveRoom => 3,
            OpType::ReadyRoom => 4,
            OpType::StartRoom => 5,
            OpType::CancelReady => 6,
        }
    }

    pub fn value(&self) -> (r: i8)
        ensures
            r == self.spec_value(),
    {
        match self {
            OpType::CreateRoom => 1,
            OpType::JoinRoom => 2,
            OpType::LeaveRoom => 3,
            OpType::ReadyRoom => 4,
            OpType::StartRoom => 5,
            OpType::CancelReady => 6,
        }
    }

    pub fn from_value(v: i8) -> (r: Option<OpType>)
        ensures
            r matches Some(t) ==> t.spec_value() == v,
            r is None ==> forall|t: OpType| t.spec_value() != v,
    {
        match v {
            1 => Some(OpType::CreateRoom),
            2 => Some(OpType::JoinRoom),
            3 => Some(OpType::LeaveRoom),
            4 => Some(OpType::ReadyRoom),
            5 => Some(OpType::StartRoom),
            6 => Some(OpType::CancelReady),
            _ => None,
        }
    }
}

/// Whether a round update opens or closes a round.
#[derive(Clone, Copy, Debug, PartialEq, Eq, Structural)]
pub enum RoundInfoType {
    RoundStart,
    RoundOver,
}

impl RoundInfoType {
    pub open spec fn spec_value(self) -> i8 {
        match self {
            RoundInfoType::RoundStart => 0,
            RoundInfoType::RoundOver => 1,
        }
    }

    pub fn value(&self) -> (r: i8)
        ensures
            r == self.spec_value(),
    {
        match self {
            RoundInfoType::RoundStart => 0,
            RoundInfoType::RoundOver => 1,
        }
    }
}

/// Answers to requests.
#[derive(Clone, Copy, Debug, PartialEq, Eq, Structural)]
pub enum Code {
    CreateOk,
    CreateFail,
    JoinOk,
    RoomFull,
    RoomInexist,
    AlreadyInRoom,
    ReadyOk,
    CancelReadyOk,
    WrongRoom,
    NotInRoom,
    AuthenOk,
    AuthenWrong,
    AuthenInExist,
}

impl Code {
    pub open spec fn spec_value(self) -> i32 {
        match self {
            Code::CreateOk => 1100,
            Code::CreateFail => 1101,
            Code::JoinOk => 1200,
            Code::RoomFull => 1201,
            Code::RoomInexist => 1202,
            Code::AlreadyInRoom => 1203,
            Code::ReadyOk => 1400,
            Code::CancelReadyOk => 1600,
            Code::WrongRoom => 1401,
            Code::NotInRoom => 1402,
            Code::AuthenOk => 6000,
            Code::AuthenWrong => 6001,
            Code::AuthenInExist => 6002,
        }
    }

    pub fn value(&self) -> (r: i32)
        ensures
            r == self.spec_value(),
    {
        match self {
            Code::CreateOk => 1100,
            Code::CreateFail => 1101,
            Code::JoinOk => 1200,
            Code::RoomFull => 1201,
            Code::RoomInexist => 1202,
            Code::AlreadyInRoom => 1203,
            Code::ReadyOk => 1400,
            Code::CancelReadyOk => 1600,
            Code::WrongRoom => 1401,
            Code::NotInRoom => 1402,
            Code::AuthenOk => 6000,
            Code::AuthenWrong => 6001,
            Code::AuthenInExist => 6002,
        }
    }
}

/// The head of every message: its kind and its length, header and payload together.
#[derive(Clone, Copy, Debug, PartialEq, Eq, Structural)]
pub struct Header {
    pub msg_type: i8,
    pub len: i32,
}

impl Header {
    pub fn new(msg_type: MsgType) -> (r: Header)
        ensures
            r.msg_type == msg_type.spec_value(),
            r.len == HEADER_SIZE,
    {
        Header { msg_type: msg_type.value(), len: HEADER_SIZE as i32 }
    }
}

/// The answer to an authentication.
#[derive(Clone, Copy, Debug)]
pub struct AuthenResult {
    pub header: Header,
    pub code: i32,
}

impl AuthenResult {
    /// The answer to a login: accepted or refused.
    pub fn login_answer(authorized: bool) -> (r: AuthenResult)
        ensures
            r.header.msg_type == MsgType::Authen.spec_value(),
            r.header.len == HEADER_SIZE + 4,
            r.code == if authorized {
                Code::AuthenOk.spec_value()
            } else {
                Code::AuthenWrong.spec_value()
            },
    {
        let mut msg = AuthenResult {
            header: Header { msg_type: MsgType::Authen.value(), len: 0 },
            code: Code::AuthenOk.value(),
        };
        msg.header.len = msg.size() as i32;
        if !authorized {
            msg.code = Code::AuthenWrong.value();
        }
        msg
    }

    pub fn size(&self) -> (r: usize)
        ensures
            r == HEADER_SIZE + 4,
    {
        HEADER_SIZE + 4
    }
}

/// Where a message stands in the game: step, round, player and room.
#[derive(Clone, Copy, Debug)]
pub struct GameBasicInfo {
    pub cur_game_step: i64,
    pub cur_game_round: i32,
    pub user_pos: u8,
    pub user_id: i64,
    pub room_id: [u8; 6],
}

impl GameBasicInfo {
    pub fn new(round: i32, step: i64, user_pos: u8, user_id: i64, room_id: [u8; 6]) -> (r:
        GameBasicInfo)
        ensures
            r.cur_game_step == step,
            r.cur_game_round == round,
            r.user_pos == user_pos,
            r.user_id == user_id,
            r.room_id == room_id,
    {
        GameBasicInfo {
            cur_game_step: step,
            cur_game_round: round,
            user_pos: user_pos,
            user_id: user_id,
            room_id: room_id,
        }
    }
}

/// An operation offered to, or chosen by, a player.
pub struct GameOperation {
    pub header: Header,
    pub game_info: GameBasicInfo,
    pub op_type: i8,
    pub target: u8,
    pub provide_cards: Vec<u8>,
}

/// The length on the wire of an operation message with `n` cards.
pub open spec fn op_msg_size(n: int) -> int {
    HEADER_SIZE + GAME_INFO_SIZE + 2 + 8 + n
}

impl GameOperation {
    pub fn size(&self) -> (r: usize)
        requires
            op_msg_size(self.provide_cards.len() as int) <= usize::MAX,
        ensures
            r == op_msg_size(self.provide_cards.len() as int),
    {
        HEADER_SIZE + GAME_INFO_SIZE + 2 + 8 + self.provide_cards.len()
    }
}

/// The operations offered to one player at once.
pub struct GameOperationPack {
    pub header: Header,
    pub operations: Vec<GameOperation>,
}

/// The total length on the wire of operation messages.
pub open spec fn ops_msg_size(ops: Seq<GameOperation>) -> int
    decreases ops.len(),
{
    if ops.len() == 0 {
        0
    } else {
        ops_msg_size(ops.drop_last()) + op_msg_size(ops.last().provide_cards.len() as int)
    }
}

impl GameOperationPack {
    pub fn size(&self) -> (r: usize)
        requires
            HEADER_SIZE + 8 + ops_msg_size(self.operations@) <= usize::MAX,
        ensures
            r == HEADER_SIZE + 8 + ops_msg_size(self.operations@),
    {
        let mut len = HEADER_SIZE + 8;
        let n = self.operations.len();
        for i in 0..n
            invariant
                n == self.operations.len(),
                HEADER_SIZE + 8 + ops_msg_size(self.operations@) <= usize::MAX,
                len == HEADER_SIZE + 8 + ops_msg_size(self.operations@.take(i as int)),
        {
            proof {
                let p = self.operations@.take(i + 1);
                assert(p.drop_last() =~= self.operations@.take(i as int));
                lemma_ops_msg_size_prefix(self.operations@, i + 1);
            }
            len = len + self.operations[i].size();
        }
        assert(self.operations@.take(n as int) =~= self.operations@);
        len
    }
}

proof fn lemma_ops_msg_size_prefix(ops: Seq<GameOperation>, i: int)
    requires
        0 <= i <= ops.len(),
    ensures
        ops_msg_size(ops.take(i)) <= ops_msg_size(ops),
    decreases ops.len() - i,
{
    if i < ops.len() {
        lemma_ops_msg_size_prefix(ops, i + 1);
        assert(ops.take(i + 1).drop_last() =~= ops.take(i));
    } else {
        assert(ops.take(i) =~= ops);
    }
}

/// A move that the table makes known to a player.
pub struct GameUpdate {
    pub header: Header,
    pub game_info: GameBasicInfo,
    pub op_type: i8,
    pub target: u8,
    pub provide_cards: Vec<u8>,
}

impl GameUpdate {
    pub fn size(&self) -> (r: usize)
        requires
            op_msg_size(self.provide_cards.len() as int) <= usize::MAX,
        ensures
            r == op_msg_size(self.provide_cards.len() as int),
    {
        HEADER_SIZE + GAME_INFO_SIZE + 2 + 8 + self.provide_cards.len()
    }
}

/// A room request of a player.
#[derive(Clone, Copy, Debug)]
pub struct RoomManage {
    pub header: Header,
    pub op_type: i8,
    pub user_id: i64,
    pub room_id: [u8; 6],
}

impl RoomManage {
    pub fn size(&self) -> (r: usize)
        ensures
            r == HEADER_SIZE + 1 + 8 + 6,
    {
        HEADER_SIZE + 1 + 8 + 6
    }
}

/// The answer to a room request.
pub struct RoomManageResult {
    pub header: Header,
    pub op_type: i8,
    pub user_id: i64,
    pub code: i32,
    pub room_id: Vec<u8>,
}

impl RoomManageResult {
    pub fn size(&self) -> (r: usize)
        requires
            HEADER_SIZE + 1 + 8 + 4 + 8 + self.room_id.len() <= usize::MAX,
        ensures
            r == HEADER_SIZE + 1 + 8 + 4 + 8 + self.room_id.len(),
    {
        HEADER_SIZE + 1 + 8 + 4 + 8 + self.room_id.len()
    }
}

/// A change of a room, made known to its players.
pub struct RoomUpdate {
    pub header: Header,
    pub op_type: i8,
    pub user_id: i64,
    pub room_id: Vec<u8>,
}

impl RoomUpdate {
    pub fn size(&self) -> (r: usize)
        requires
            HEADER_SIZE + 1 + 8 + 8 + self.room_id.len() <= usize::MAX,
        ensures
            r == HEADER_SIZE + 1 + 8 + 8 + self.room_id.len(),
    {
        HEADER_SIZE + 1 + 8 + 8 + self.room_id.len()
    }
}

/// The seats of a room and who is ready.
pub struct RoomSnapshot {
    pub header: Header,
    pub user_pos: Vec<i64>,
    pub user_ready_status: Vec<u8>,
    pub room_id: Vec<u8>,
}

/// The length on the wire of a room snapshot.
pub open spec fn snapshot_size(seats: int, ready: int, room: int) -> int {
    HEADER_SIZE + 8 + 8 * seats + 8 + ready + 8 + room
}

impl RoomSnapshot {
    pub fn size(&self) -> (r: usize)
        requires
            snapshot_size(
                self.user_pos.len() as int,
                self.user_ready_status.len() as int,
                self.room_id.len() as int,
            ) <= usize::MAX,
        ensures
            r == snapshot_size(
                self.user_pos.len() as int,
                self.user_ready_status.len() as int,
                self.room_id.len() as int,
            ),
    {
        HEADER_SIZE + 8 + 8 * self.user_pos.len() + 8 + 1 * self.user_ready_status.len() + 8 + 1
            * self.room_id.len()
    }
}

/// The start or the end of a round, with the scores.
pub struct GameRoundUpdate {
    pub header: Header,
    pub round_info_type: i8,
    pub cur_round: i32,
    pub cur_banker_pos: u8,
    pub cur_banker_user_id: i64,
    pub user_cur_score: Vec<i32>,
    pub user_score_change: Vec<i32>,
}

/// The length on the wire of a round update.
pub open spec fn round_update_size(scores: int, changes: int) -> int {
    HEADER_SIZE + 1 + 4 + 1 + 8 + 8 + scores * 4 + 8 + changes * 4
}

impl GameRoundUpdate {
    pub fn size(&self) -> (r: usize)
        requires
            round_update_size(
                self.user_cur_score.len() as int,
                self.user_score_change.len() as int,
            ) <= usize::MAX,
        ensures
            r == round_update_size(
                self.user_cur_score.len() as int,
                self.user_score_change.len() as int,
            ),
    {
        HEADER_SIZE + 1 + 4 + 1 + 8 + 8 + self.user_cur_score.len() * 4 + 8
            + self.user_score_change.len() * 4
    }
}

/// A request for the state of the game.
#[derive(Clone, Copy, Debug)]
pub struct QueryGameSnapshot {
    pub header: Header,
    pub user_id: i64,
}

impl QueryGameSnapshot {
    pub fn size(&self) -> (r: usize)
        ensures
            r == HEADER_SIZE + 8,
    {
        HEADER_SIZE + 8
    }
}

/// The state of the game as one player sees it.
pub struct GameSnapshot {
    pub header: Header,
    pub game_info: GameBasicInfo,
    pub user_id: i64,
    pub user_on_hand: Vec<u8>,
    pub on_game_user_id: Vec<i64>,
    pub on_game_group_cards: Vec<Vec<Vec<u8>>>,
}

/// The length on the wire of the groups of one player.
pub open spec fn groups_size(gs: Seq<Vec<u8>>) -> int
    decreases gs.len(),
{
    if gs.len() == 0 {
        0
    } else {
        groups_size(gs.drop_last()) + 8 + gs.last().len()
    }
}

/// The length on the wire of the groups of all players.
pub open spec fn all_groups_size(us: Seq<Vec<Vec<u8>>>) -> int
    decreases us.len(),
{
    if us.len() == 0 {
        0
    } else {
        all_groups_size(us.drop_last()) + 8 + groups_size(us.last()@)
    }
}

/// The length on the wire of a game snapshot.
pub open spec fn game_snapshot_size(on_hand: int, ids: int, groups: Seq<Vec<Vec<u8>>>) -> int {
    HEADER_SIZE + GAME_INFO_SIZE + 8 + 8 + on_hand + 8 + ids * 8 + 8 + all_groups_size(groups)
}

proof fn lemma_groups_size_prefix(gs: Seq<Vec<u8>>, i: int)
    requires
        0 <= i <= gs.len(),
    ensures
        groups_size(gs.take(i)) <= groups_size(gs),
        groups_size(gs) >= 0,
    decreases gs.len() - i,
{
    if i < gs.len() {
        lemma_groups_size_prefix(gs, i + 1);
        assert(gs.take(i + 1).drop_last() =~= gs.take(i));
    } else {
        assert(gs.take(i) =~= gs);
        lemma_groups_size_nonneg(gs);
    }
}

proof fn lemma_groups_size_nonneg(gs: Seq<Vec<u8>>)
    ensures
        groups_size(gs) >= 0,
    decreases gs.len(),
{
    if gs.len() > 0 {
        lemma_groups_size_nonneg(gs.drop_last());
    }
}

proof fn lemma_all_groups_size_prefix(us: Seq<Vec<Vec<u8>>>, i: int)
    requires
        0 <= i <= us.len(),
    ensures
        all_groups_size(us.take(i)) <= all_groups_size(us),
    decreases us.len() - i,
{
    if i < us.len() {
        lemma_all_groups_size_prefix(us, i + 1);
        assert(us.take(i + 1).drop_last() =~= us.take(i));
        lemma_groups_size_nonneg(us[i]@);
    } else {
        assert(us.take(i) =~= us);
    }
}

impl GameSnapshot {
    pub fn size(&self) -> (r: usize)
        requires
            game_snapshot_size(
                self.user_on_hand.len() as int,
                self.on_game_user_id.len() as int,
                self.on_game_group_cards@,
            ) <= usize::MAX,
        ensures
            r == game_snapshot_size(
                self.user_on_hand.len() as int,
                self.on_game_user_id.len() as int,
                self.on_game_group_cards@,
            ),
    {
        let ghost us = self.on_game_group_cards@;
        proof {
            lemma_all_groups_size_prefix(us, 0);
            lemma_all_groups_size_nonneg(us);
        }
        let mut len = HEADER_SIZE + GAME_INFO_SIZE;
        len += 8;
        len += 8 + self.user_on_hand.len() * 1;
        len += 8 + self.on_game_user_id.len() * 8;
        len += 8;
        let ghost base = len as int;
        let n = self.on_game_group_cards.len();
        for i in 0..n
            invariant
                n == us.len(),
                us == self.on_game_group_cards@,
                base + all_groups_size(us) <= usize::MAX,
                all_groups_size(us) >= 0,
                len == base + all_groups_size(us.take(i as int)),
        {
            let user_group = &self.on_game_group_cards[i];
            let ghost gs = user_group@;
            proof {
                assert(us.take(i + 1).drop_last() =~= us.take(i as int));
                lemma_all_groups_size_prefix(us, i + 1);
                lemma_groups_size_nonneg(gs);
            }
            len += 8;
            let m = user_group.len();
            for k in 0..m
                invariant
                    m == gs.len(),
                    gs == user_group@,
                    base + all_groups_size(us.take(i + 1)) <= usize::MAX,
                    all_groups_size(us.take(i + 1)) == all_groups_size(us.take(i as int)) + 8
                        + groups_size(gs),
                    len == base + all_groups_size(us.take(i as int)) + 8 + groups_size(
                        gs.take(k as int),
                    ),
            {
                proof {
                    assert(gs.take(k + 1).drop_last() =~= gs.take(k as int));
                    lemma_groups_size_prefix(gs, k + 1);
                    lemma_all_groups_size_nonneg(us.take(i as int));
                }
                len += 8 + user_group[k].len();
            }
            assert(gs.take(m as int) =~= gs);
        }
        assert(us.take(n as int) =~= us);
        len
    }
}

proof fn lemma_all_groups_size_nonneg(us: Seq<Vec<Vec<u8>>>)
    ensures
        all_groups_size(us) >= 0,
    decreases us.len(),
{
    if us.len() > 0 {
        lemma_all_groups_size_nonneg(us.drop_last());
        lemma_groups_size_nonneg(us.last()@);
    }
}

/// The end of a game, with the final scores.
pub struct GameOver {
    pub header: Header,
    pub room_id: Vec<u8>,
    pub cur_round: i32,
    pub user_cur_score: Vec<i32>,
}

impl GameOver {
    pub fn size(&self) -> (r: usize)
        requires
            HEADER_SIZE + 8 + self.room_id.len() + 4 + 8 + 4 * self.user_cur_score.len()
                <= usize::MAX,
        ensures
            r == HEADER_SIZE + 8 + self.room_id.len() + 4 + 8 + 4 * self.user_cur_score.len(),
    {
        HEADER_SIZE + 8 + 1 * self.room_id.len() + 4 + 8 + 4 * self.user_cur_score.len()
    }
}

} // verus!
