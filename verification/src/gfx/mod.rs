//! Shader source handling.

pub mod shader;
pub mod text;

pub use shader::default_shaderlib;
pub use shader::directives_well_formed;
pub use shader::handle_include;
pub use shader::proc_shader_code;
pub use shader::ShaderCode;
pub use shader::ShaderLib;
pub use shader::ShaderPath;
