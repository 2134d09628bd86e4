pub mod grouped;
pub mod parsed;
