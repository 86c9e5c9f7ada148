//! The program's banner artwork; printing it is left to the surrounding
//! program.

use vstd::prelude::*;

verus! {

/// The block-letter logo, one line per row of letters.
pub const LOGO: &'static str = "
  ██████╗ ██████╗ ███████╗ ██████╗
 ██╔════╝██╔═══██╗██╔════╝██╔═══██╗
 ██║     ██║   ██║███████╗██║   ██║
 ██║     ██║   ██║╚════██║██║▄▄ ██║
 ╚██████╗╚██████╔╝███████╗╚██████╔╝
  ╚═════╝ ╚═════╝ ╚══════╝ ╚══▀▀═╝";

} // verus!
