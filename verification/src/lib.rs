//! Verified core of the Big Red Internet Button: the LED animation arithmetic and
//! button logic of the ESP32 device, the parsing and request framing it uses to
//! reach the backend, and the backend's event log, admin page and credential checks.

/// Status LED colours and animations: breathing, countdown pulse, flash sequences.
pub mod led;
/// Decisions of the device's main loop and of its WiFi connection task.
pub mod monitor;
/// Decimal numbers: reading them as the standard library does, writing them out.
pub mod decimal;
/// Splitting text at ASCII delimiters.
pub mod text;
/// The fixed-capacity heapless strings the device writes into.
pub mod buffer;
/// Reading the backend address the device is configured with.
pub mod endpoint;
/// The HTTP request the device sends, and how it reads the answer.
pub mod request;
/// The backend's HTML pages.
pub mod pages;
/// The backend's log of presses and its admin page.
pub mod events;
/// The admin page's credential check.
pub mod auth;
