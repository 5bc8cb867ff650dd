//! Player-side adapter for the line-oriented ants game protocol: grid
//! positions and orders, per-turn world snapshots, the codec for the wire
//! text and the turn-loop driver that calls into an [`Agent`].
pub mod agent_actions;
pub mod driver;
pub mod game_parameters;
pub mod position;
pub mod protocol;
pub mod text;
pub mod world_state;

pub use self::agent_actions::AgentActions;
pub use self::driver::{run_game_with_io, Action, Agent, Driver, Phase};
pub use self::game_parameters::{GameParameters, ParamKey, SetupIssue};
pub use self::position::Direction::{East, NoDirection, North, South, West};
pub use self::position::{pos, Direction, Order, Orders, Position};
pub use self::protocol::{
    parse_end_lines, parse_orders, parse_turn_0_lines, parse_turn_x_lines, serialize_orders,
    ErrorKind, ProtocolError, Score, SetupPolicy,
};
pub use self::world_state::{PerPlayer, Record, WorldState};
