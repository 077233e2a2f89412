//! Host-side plugin support for the island: the C ABI records that cross the
//! plugin boundary, their conversion into host values, and the registry of
//! loaded plugins.

pub mod plugin;
