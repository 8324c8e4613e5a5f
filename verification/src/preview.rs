//! The asset previewer's command line.
use vstd::prelude::*;

verus! {

/// What the previewer was asked to show.
pub struct PreviewArgs {
    /// The accessory's OBJ file.
    pub asset: String,
    /// Its texture image, when one is named.
    pub texture: Option<String>,
}

/// Reads the previewer's command line (program name first). `None` when no
/// asset is named, which is when the previewer prints its usage and exits.
pub fn parse_preview_args(args: &Vec<String>) -> (res: Option<PreviewArgs>)
    ensures
        res is None <==> args.len() < 2,
        res matches Some(a) ==> a.asset@ == args[1]@,
        res matches Some(a) ==> (args.len() < 3 ==> a.texture is None),
        res matches Some(a) ==> (args.len() >= 3 ==> (a.texture matches Some(t) && t@ == args[2]@)),
{
    if args.len() < 2 {
        return None;
    }
    let texture = if args.len() < 3 {
        None
    } else {
        Some(args[2].clone())
    };
    Some(PreviewArgs { asset: args[1].clone(), texture })
}

} // verus!
