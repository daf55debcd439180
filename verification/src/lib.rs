pub mod frontend;
pub mod game;
pub mod hand;
pub mod melds;
pub mod message;
pub mod model;
pub mod notice;
pub mod operation;
pub mod random;
pub mod room;
pub mod session;
pub mod state;
pub mod turn;
pub mod winning;
