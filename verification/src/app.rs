//! The program as a state that keys and events change, one at a time. What has to
//! be done outside goes to a list of actions, in order.
use vstd::prelude::*;

pub mod effects;
pub mod events;
pub mod jobs;
pub mod keys;
pub mod kinds;
pub mod laws;
pub mod lookups;
pub mod monitor;
pub mod offers;
pub mod pane;
pub mod picking;
pub mod responses;
pub mod saving;
pub mod state;

pub use kinds::Kinds;
pub use pane::{Link, LinkView, Pane, PaneView, SERIAL_CAP};
pub use state::{
    Action, ActionView, Answer, App, AppEvent, AppView, Arg, ArgView, Job, Key, KeyPress, Pending,
    PendingView, Pick, Picker, PickerView, Tab,
};

verus! {

pub const BAUDS: [u32; 15] = [
    300,
    1200,
    2400,
    4800,
    9600,
    19200,
    38400,
    57600,
    74880,
    115200,
    230400,
    250000,
    500000,
    1000000,
    2000000,
];

} // verus!
