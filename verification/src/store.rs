use vstd::prelude::*;
use crate::text::{str_eq, str_views};

verus! {

// ---------------------------------------------------------------------------
// Schema versions
// ---------------------------------------------------------------------------

/// Version of the database layout this player writes.
pub const SCHEMA_VERSION: i64 = 4;

/// The upgrades a database needs: the layout of version 1 is always ensured,
/// each later step only for databases older than it.
pub struct SchemaUpgrade {
    /// Tag types gain a system key and a multi-value flag.
    pub to_v2: bool,
    /// A video may hold several values of one tag type.
    pub to_v3: bool,
    /// Indexes for searching and ordering.
    pub to_v4: bool,
}

/// The upgrades of a database at `version`, or nothing for a database written by
/// a newer player, which is left alone.
pub open spec fn spec_plan_schema_upgrade(version: i64) -> Option<(bool, bool, bool)> {
    if version > SCHEMA_VERSION {
        None
    } else {
        Some((version < 2, version < 3, version < 4))
    }
}

/// Plans the upgrade of a database whose stored version is `version`.
pub fn plan_schema_upgrade(version: i64) -> (r: Option<SchemaUpgrade>)
    ensures
        match r {
            Some(u) => spec_plan_schema_upgrade(version) == Some((u.to_v2, u.to_v3, u.to_v4)),
            None => spec_plan_schema_upgrade(version) is None,
        },
{
    if version > SCHEMA_VERSION {
        None
    } else {
        Some(SchemaUpgrade { to_v2: version < 2, to_v3: version < 3, to_v4: version < 4 })
    }
}

/// Initialising twice changes nothing the second time: a database at the current
/// version needs no upgrade step.
pub proof fn lemma_current_schema_needs_no_upgrade()
    ensures
        spec_plan_schema_upgrade(SCHEMA_VERSION) == Some((false, false, false)),
{
}

/// Every database the player accepts ends at the current version: each step from
/// its version up to `SCHEMA_VERSION` is planned, and no other.
pub proof fn lemma_upgrade_reaches_current(version: i64)
    requires
        version <= SCHEMA_VERSION,
    ensures
        spec_plan_schema_upgrade(version) matches Some((a, b, c)) && (a <==> version < 2) && (b
            <==> version < 3) && (c <==> version < SCHEMA_VERSION),
{
}

// ---------------------------------------------------------------------------
// Preset tag types
// ---------------------------------------------------------------------------

/// A tag type the player always provides.
pub struct PresetTag {
    pub system_key: &'static str,
    pub name: &'static str,
    pub sort_order: i64,
    pub options: Vec<&'static str>,
}

/// The star rating: options 1 to 7.
pub open spec fn star_options() -> Seq<Seq<char>> {
    seq!["1"@, "2"@, "3"@, "4"@, "5"@, "6"@, "7"@]
}

/// The picture quality options.
pub open spec fn quality_options() -> Seq<Seq<char>> {
    seq!["480p"@, "720p"@, "1080p"@, "4K"@]
}

/// The preset tag types: star rating (`stars`, shown first) and picture quality
/// (`quality`, shown second), both enumerated.
pub fn preset_tags() -> (r: Vec<PresetTag>)
    ensures
        r@.len() == 2,
        r@[0].system_key@ == "stars"@,
        r@[0].name@ == "星级"@,
        r@[0].sort_order == 1,
        str_views(r@[0].options@) == star_options(),
        r@[1].system_key@ == "quality"@,
        r@[1].name@ == "画质"@,
        r@[1].sort_order == 2,
        str_views(r@[1].options@) == quality_options(),
{
    let stars = vec!["1", "2", "3", "4", "5", "6", "7"];
    assert(str_views(stars@) =~= star_options());
    let quality = vec!["480p", "720p", "1080p", "4K"];
    assert(str_views(quality@) =~= quality_options());
    let mut r: Vec<PresetTag> = Vec::new();
    r.push(PresetTag { system_key: "stars", name: "星级", sort_order: 1, options: stars });
    r.push(PresetTag { system_key: "quality", name: "画质", sort_order: 2, options: quality });
    r
}

/// The star rating offers seven values.
pub proof fn lemma_seven_stars()
    ensures
        star_options().len() == 7,
{
}

// ---------------------------------------------------------------------------
// Fingerprint migration
// ---------------------------------------------------------------------------

/// What happens to a video registered under an older fingerprint.
pub enum LegacyMigration {
    /// Nothing is registered under the older fingerprint.
    Nothing,
    /// Both are registered: the tags are merged into the current record, which
    /// keeps the larger play position and duration.
    Merge,
    /// Only the older one is registered: it is moved to the current fingerprint.
    Move,
}

/// Only a fingerprint that differs from the current one is migrated.
pub fn needs_migration(legacy: &str, current: &str) -> (r: bool)
    ensures
        r == (legacy@ != current@),
{
    !str_eq(legacy, current)
}

/// The migration step, from which of the two fingerprints are registered.
pub fn legacy_migration(legacy_exists: bool, current_exists: bool) -> (r: LegacyMigration)
    ensures
        !legacy_exists ==> r is Nothing,
        legacy_exists && current_exists ==> r is Merge,
        legacy_exists && !current_exists ==> r is Move,
{
    if !legacy_exists {
        LegacyMigration::Nothing
    } else if current_exists {
        LegacyMigration::Merge
    } else {
        LegacyMigration::Move
    }
}

} // verus!
