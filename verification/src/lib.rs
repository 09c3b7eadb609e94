//! The shared, pure policy of the Den clients: the title store reader and the library sync rules.
//!
//! No clocks, storage, network, credentials or async runtime. All time and provider facts arrive as
//! inputs, and every answer is a function of them.
//!
//! The title store: [`store`] reads it, on [`endian`], [`element`], [`text`] and [`blake2`]; [`refusal`]
//! says why one was refused; [`integrity`] is what can be relied on in one that was not, and [`contents`]
//! what its bytes say.
//!
//! The library: [`wire`] merges rows, and [`convergence`] and [`naming`] are what that promises;
//! [`capture`] records what a user said, [`events`] translates it for a provider and [`delivery`] decides
//! whether it is sent; [`api`] is the boundary that bindings call. Rows are [`json`] values with [`double`]
//! numbers, stamped by [`stamp`]. What each of them comes to is stated value by value: what is read in a row
//! in [`reading`], what rows merge to in [`merging`], what is said and asked in [`telling`].
//!
//! For clients that show titles: [`episodes`], [`series`] and [`tilt`]. [`viewing`] states episode by episode
//! what a viewer is offered.

pub mod blake2;
pub mod endian;
pub mod element;
pub mod text;
pub mod store;
pub mod integrity;
pub mod contents;
pub mod refusal;
pub mod double;
pub mod json;
pub mod stamp;
pub mod wire;
pub mod reading;
pub mod naming;
pub mod convergence;
pub mod merging;
pub mod capture;
pub mod events;
pub mod telling;
pub mod delivery;
pub mod episodes;
pub mod series;
pub mod viewing;
pub mod tilt;
pub mod api;

pub use api::{respond, retry, run, Request};
pub use capture::capture;
pub use delivery::{decide, Action, Command, Decision, Kind, Remote, RemoteRating, RemoteTime};
pub use episodes::episode_mark;
pub use events::commands;
pub use stamp::Stamp;
pub use store::{
    Franchises, IconicStudio, IconicStudios, List, Row, Store, StoreError, StoreTable, Strings,
};
pub use wire::merge;
