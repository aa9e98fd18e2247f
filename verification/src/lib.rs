pub mod text;
pub mod order;
pub mod audio_input;
pub mod capture;
pub mod system_audio;
pub mod settings;
pub mod perf;
pub mod effect_node;
pub mod nodes;
pub mod library;
pub mod frame;
