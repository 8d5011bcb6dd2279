pub mod clock;
pub mod text;
pub mod binary;
pub mod collection;
pub mod osu_db;
pub mod version;
pub mod update;
pub mod settings;
pub mod mirrors;
pub mod tasks;
pub mod store;
pub mod csv;
pub mod osu_file;
pub mod paths;
pub mod items;
pub mod enqueue;
pub mod playlist;
pub mod export;
pub mod osz;
pub mod download;
pub mod staging;
pub mod search;
pub mod sorting;
pub mod alpha;
pub mod oauth;
pub mod links;
