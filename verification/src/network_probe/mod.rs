//! Which addresses to try, what checks of them tell, and which path to take.

pub mod candidate;
pub mod check;
pub mod clock;
pub mod error;
pub mod interface;
pub mod laws;
pub mod route_laws;
pub mod routes;
pub mod run;
pub mod run_laws;
pub mod selection;

pub use candidate::{
    candidate_digest, pair_candidates, Candidate, CandidateExchange, CandidateKind, CandidatePair,
    KindCodes, PathKind,
};
pub use check::{CheckAuthorization, CheckResult, PathCheck, ProbeConfig};
pub use clock::unix_millis;
pub use run::{ProbeAction, ProbeRun};
pub use selection::{
    choose_path, select_best, PathDecision, PathSelectionConfig, RelayPath, SelectedPath,
};
pub use interface::{NetworkInterface, NetworkRoute, NetworkSnapshot};
pub use error::{ProbeError, SelectionError};
