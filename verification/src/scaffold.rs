//! A new project's starting manifest.
use vstd::prelude::*;

verus! {

/// The manifest of a new project named `name`: one GeoJSON source, a centroid
/// transform and a GeoJSON sink.
pub open spec fn starter_manifest(name: Seq<char>) -> Seq<char> {
    "[project]\nname = \""@ + name + "\"\nversion = \"0.1.0\"\n\n[[source]]\nname = \"input\"\nformat = \"geojson\"\npath = \"data/input.geojson\"\n\n[[transform]]\nname = \"processed\"\ninput = \"input\"\noperation = \"centroid\"\n\n[[sink]]\nname = \"output\"\ninput = \"processed\"\nformat = \"geojson\"\npath = \"output/result.geojson\"\n"@
}

/// The starting manifest of a new project (`starter_manifest`).
pub fn init_manifest(name: &str) -> (r: String)
    ensures
        r@ == starter_manifest(name@),
{
    crate::text::cat3(
        "[project]\nname = \"",
        name,
        "\"\nversion = \"0.1.0\"\n\n[[source]]\nname = \"input\"\nformat = \"geojson\"\npath = \"data/input.geojson\"\n\n[[transform]]\nname = \"processed\"\ninput = \"input\"\noperation = \"centroid\"\n\n[[sink]]\nname = \"output\"\ninput = \"processed\"\nformat = \"geojson\"\npath = \"output/result.geojson\"\n",
    )
}

} // verus!
