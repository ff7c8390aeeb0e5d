pub mod channels;
pub mod concat;
pub mod fade;
pub mod normalize;
pub mod resample;
pub mod split;
pub mod trim;
pub mod volume;
