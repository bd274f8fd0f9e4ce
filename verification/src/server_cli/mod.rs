pub mod tui_runner;
