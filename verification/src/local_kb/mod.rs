pub mod experience;
pub mod hash;
pub mod init;
