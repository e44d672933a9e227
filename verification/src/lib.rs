pub mod agents;
pub mod config;
pub mod connectivity;
pub mod game;
pub mod menu;
pub mod text;
pub mod union_find;

pub use agents::random::RandomAgent;
pub use agents::{Agent, ClickAgent};
pub use config::AppConfig;
pub use game::{GameUpdate, HexBoard, HexCell, HexMove, Player};
pub use menu::AppState;
pub use union_find::UnionFind;
