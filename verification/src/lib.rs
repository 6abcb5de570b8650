//! Minecraft server list ping: the Java Edition and Bedrock Edition status
//! protocols, the text they carry, and the command line around them.
pub mod text;
pub mod util;
pub mod i18n;
pub mod protocol;
pub mod cli;
