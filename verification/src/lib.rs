pub mod catalog;
pub mod digest;
pub mod globre;
pub mod hexenc;
pub mod index;
pub mod paths;
pub mod record;
pub mod resolve;
pub mod strutil;
pub mod timefmt;
