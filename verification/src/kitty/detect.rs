use vstd::prelude::*;

use crate::cli::{Cli, FeatureMode};
use crate::render::Capabilities;

verus! {

/// Whether a feature in `mode` is on: never in plain output, otherwise always, never, or
/// (automatically) when the terminal is kitty.
pub open spec fn feature_on(mode: FeatureMode, plain: bool, is_kitty: bool) -> bool {
    match mode {
        FeatureMode::Always => !plain,
        FeatureMode::Never => false,
        FeatureMode::Auto => is_kitty && !plain,
    }
}

fn resolve(mode: FeatureMode, plain: bool, is_kitty: bool) -> (r: bool)
    ensures
        r == feature_on(mode, plain, is_kitty),
{
    match mode {
        FeatureMode::Always => !plain,
        FeatureMode::Never => false,
        FeatureMode::Auto => is_kitty && !plain,
    }
}

/// What to use of the terminal, given the command line and whether the terminal is kitty:
/// styling unless the output is plain, text sizing and hyperlinks as `--kitty` says,
/// images as `--images` says.
pub fn detect_capabilities(cli: &Cli, is_kitty: bool) -> (r: Capabilities)
    ensures
        r.ansi == !cli.plain,
        r.kitty_text_size == feature_on(cli.kitty, cli.plain, is_kitty),
        r.kitty_graphics == feature_on(cli.images, cli.plain, is_kitty),
        r.kitty_hyperlinks == feature_on(cli.kitty, cli.plain, is_kitty),
{
    let is_plain = cli.plain;
    Capabilities {
        ansi: !is_plain,
        kitty_text_size: resolve(cli.kitty, is_plain, is_kitty),
        kitty_graphics: resolve(cli.images, is_plain, is_kitty),
        kitty_hyperlinks: resolve(cli.kitty, is_plain, is_kitty),
    }
}

} // verus!
