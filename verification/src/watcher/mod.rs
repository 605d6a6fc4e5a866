pub mod fs_watcher;
