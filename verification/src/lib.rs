//! Verified core of the NervCTF challenge manager.
//!
//! The command-line side: the challenge model and its dependency queue
//! (`models`, `deps`), scanning, validation and its report (`scanner`,
//! `validator`, `report`), the YAML patcher (`fix`), configuration and
//! setup (`config`, `setup`), and deployment: what to create or update,
//! how sub-resources are brought in line, how the monitor's API is
//! addressed (`sync`, `deploy`, `resync`, `api`).
//!
//! The remote monitor's decisions: instance naming, flags, ports and
//! connections (`instance`, `provision`, `request`), renewals, flag
//! submissions and solves of running instances (`lifecycle`), the commands sent to
//! Docker, Compose, LXC and runner hosts (`compose`, `runner`), the SQL
//! written to CTFd's database and what is read back (`probe`, `ctfd_sql`,
//! `diff`), authentication and HTML escaping (`server`), uploads
//! (`uploads`), its settings and background sweeps (`monitor`), and the
//! calendar arithmetic of expiry times (`clock`).
pub mod text;
pub mod models;
pub mod deps;
pub mod sync;
pub mod paths;
pub mod validator;
pub mod scanner;
pub mod fix;
pub mod config;
pub mod clock;
pub mod instance;
pub mod provision;
pub mod server;
pub mod compose;
pub mod probe;
pub mod deploy;
pub mod report;
pub mod setup;
pub mod diff;
pub mod ctfd_sql;
pub mod request;
pub mod resync;
pub mod runner;
pub mod monitor;
pub mod api;
pub mod uploads;
pub mod lifecycle;
