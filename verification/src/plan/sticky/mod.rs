pub mod immix;
