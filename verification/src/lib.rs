//! Verified core of the psypher tools: the OS Dungeon's directory windows,
//! voxel layout and visit sessions; the ASCII dungeon browser's state
//! machine and screen; the embedded terminal's input, colour and painting
//! logic; the NPC simulation's mount links and site neighbourhoods; site
//! plot geometry; and the geometry trace's event numbering.
pub mod geometry;
pub mod cellmap;
pub mod corridor;
pub mod windows;
pub mod layout;
pub mod laws;
pub mod session;
pub mod sessiontable;
pub mod text;
pub mod paths;
pub mod browser;
pub mod screen;
pub mod terminal;
pub mod terminput;
pub mod termgrid;
pub mod sites;
pub mod trace;
pub mod mountstore;
pub mod mounts;
pub mod mountlaws;
pub mod plots;
pub mod footprint;
