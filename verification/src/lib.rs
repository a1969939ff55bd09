pub mod text;
pub mod order;
pub mod pipewire;
pub mod cycle;
pub mod wav;
pub mod overlay;
pub mod pill;
pub mod canvas;
pub mod color;
pub mod secrets;
pub mod cliphist;
pub mod aidump;
pub mod netstatus;
pub mod peek;
pub mod controls;
