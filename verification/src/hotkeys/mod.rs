//! Global hotkeys: reading a configured combination, telling a tap from a hold,
//! dropping a repeated press of an action that still runs, and folding a burst
//! of panel presses into one window operation.

pub mod combo;
pub mod hold;
pub mod panel;
pub mod route;

pub use combo::{key_code, keysym_name, to_accelerator, to_portal_trigger, Modifier};
pub use hold::{HoldCore, PendingRelease, PressAction, ReleaseAction, HOLD_MS, NS_PER_MS, REPEAT_MS};
pub use panel::{
    apply_cmds, coalesce, panel_state, Applied, MapStep, PanelCmd, PanelPlan, PanelState, Snapshots,
};
pub use route::{
    actions, configured_bindings, dispatch, hold_press, hotkey_event, portal_bindings,
    press_starts_take, register_grabs, registration_warning, Binding, Dispatched, Grab, Inflight,
    Job, Route,
};
