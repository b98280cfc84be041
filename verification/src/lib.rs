//! Markie: the text-processing core of a Markdown-to-image renderer.
pub mod color;
pub mod export;
pub mod highlight;
pub mod html;
pub mod markdown;
pub mod math;
pub mod mermaid;
pub mod paths;
pub mod renderer;
pub mod text;
pub mod theme;
pub mod xml;
