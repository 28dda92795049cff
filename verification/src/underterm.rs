//! Scripted-text machinery: styled segments, the layout state that places
//! them, and the typewriter that reveals a script one character per tick.

pub mod fonts;
pub mod text;
