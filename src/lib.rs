//! Release lifecycle data of Debian and Ubuntu: which releases exist, and which
//! of them are created, released, supported or in development on a given day.
mod date;
mod release;
mod info;

pub use date::Date;
pub use release::DistroRelease;
pub use info::{
    DebianDistroInfo, DistroInfo, LoadError, UbuntuDistroInfo, DEBIAN_CSV_PATH, UBUNTU_CSV_PATH,
};
