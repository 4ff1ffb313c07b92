pub mod scripting;
