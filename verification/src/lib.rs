//! A small English/Chinese dictionary client: the page and reply formats of the
//! dictionary and lyrics services, and the decisions of the command line and the
//! window front end, as verified functions.

pub mod cli;
pub mod json;
pub mod kugou;
pub mod mplayer;
pub mod scan;
pub mod search;
pub mod text;
pub mod youdao;
