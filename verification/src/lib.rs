//! A systemd compatibility layer for OpenRC: readers for `.service`,
//! `.timer`, `.socket` and `.mount` units, and writers of the OpenRC init
//! scripts, cron lines, s6 run scripts and fstab lines that stand for them.
pub mod activate;
pub mod cgroup;
pub mod mount;
pub mod openrc;
pub mod socket;
pub mod syntax;
pub mod systemctl;
pub mod text;
pub mod timer;
pub mod unit;
