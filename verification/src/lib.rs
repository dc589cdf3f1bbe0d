//! A procedural city: citizens are born, age, befriend, pair up, marry,
//! have children, take jobs and die, one simulated year at a time.

pub mod children;
pub mod city;
pub mod culture;
pub mod debug_timer;
pub mod dice;
pub mod dieties;
pub mod employment;
pub mod family;
pub mod friends;
pub mod grammar;
pub mod identity;
pub mod laws;
pub mod institutions;
pub mod lifecycle;
pub mod mind;
pub mod mortality;
pub mod partners;
pub mod personality;
pub mod physical_description;
pub mod relations;
pub mod seqs;
pub mod surnames;
pub mod tick;
