//! The process-wide configuration chosen on the command line at startup:
//! whether Nerd Font icons are shown, and whether a node source may fake
//! random access over a stream that can only be read forward.

use vstd::prelude::*;

verus! {

/// The startup configuration. Set once, read from anywhere afterwards.
#[derive(Clone, Copy, Debug)]
pub struct Config {
    nerd_font: bool,
    allow_slow_pipes: bool,
}

impl Config {
    pub closed spec fn spec_nerd_font(&self) -> bool {
        self.nerd_font
    }

    pub closed spec fn spec_allow_slow_pipes(&self) -> bool {
        self.allow_slow_pipes
    }
}

/// The configuration the command-line flags chose.
pub fn init(nerd_font: bool, allow_slow_pipes: bool) -> (c: Config)
    ensures
        c.spec_nerd_font() == nerd_font,
        c.spec_allow_slow_pipes() == allow_slow_pipes,
{
    Config { nerd_font, allow_slow_pipes }
}

/// Whether Nerd Font icons should be shown.
pub fn nerd_font(config: &Config) -> (r: bool)
    ensures
        r == config.spec_nerd_font(),
{
    config.nerd_font
}

/// Whether a node source may fake random access over a stream that can
/// only really be read forward, once, from its start — at the cost of
/// redoing real work (such as decompression) on every seek backward.
pub fn allow_slow_pipes(config: &Config) -> (r: bool)
    ensures
        r == config.spec_allow_slow_pipes(),
{
    config.allow_slow_pipes
}

} // verus!
