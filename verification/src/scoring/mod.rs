pub mod limits;
pub mod result;
pub mod lines;

pub use limits::{base_points, limit_band_label};
pub use result::{Payment, ScoreDelta, ScoringResult, WinType, Yaku, closed_han_spec, is_yakuman_spec, open_penalty_spec, yaku_label};
