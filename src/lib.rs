//! A one-way file transport over a stream of 2-D barcode images: frame
//! headers, the capacity of each barcode configuration, and the sending and
//! receiving sessions that slice a file into frames and put it back together.

pub mod header;
pub mod capacity;
pub mod frame;
pub mod chunks;
pub mod receiver;
pub mod sender;
pub mod symbol;
