//! beanfun's login, launch and update replies, read and decided on.
pub mod types;
pub mod login;
pub mod otp;
pub mod pages;
pub mod session;
pub mod update;
