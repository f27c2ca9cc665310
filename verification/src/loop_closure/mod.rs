//! Loop closure support: the visual vocabulary that maps ORB descriptors to
//! words, feature vectors that group features by word, and the inverted
//! index from words to keyframes.

pub mod vocabulary;
pub mod bow;
pub mod inverted_index;
pub mod loop_closing;
