//! Mermaid diagram sources: their syntax trees and the parser that builds them.
pub mod parser;
pub mod operators;
pub mod layout;
pub mod render;
pub mod types;

pub use parser::{extract_node_info, mermaid_source_supported, parse_mermaid};
pub use render::escape_xml;
pub use types::{DiagramKind, MermaidDiagram};
