pub mod element;
pub mod key;
pub mod page;
pub mod registry;
pub mod ssr;

pub use element::{classify, element_source, kind_for_extension, wrap_template, ElementKind};
pub use key::{file_extension, file_name, file_stem, generate_key};
pub use page::{compose, ComposedPages};
pub use registry::{read_elements, ElementRegistry};
pub use ssr::{
    decode_render_result, enhance, finish_render, result_from_members, PipelineError,
    RenderRequest, RenderResult, Renderer,
};
