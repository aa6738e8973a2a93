use vstd::prelude::*;

pub mod text;
pub mod json;
pub mod crypto;
pub mod matching;
pub mod jar;
pub mod beanfun;
pub mod credentials;
pub mod browser;
pub mod overlay;
pub mod keyhook;
pub mod gamapass;
pub mod captcha;
pub mod hidden;
pub mod icon;
pub mod win;
pub mod flow;

verus! {

} // verus!
