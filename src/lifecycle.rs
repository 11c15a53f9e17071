//! Where things live, and the steps of taking a new save.
use vstd::prelude::*;
use crate::record::{AddError, Config, GameDB, Save, SaveView};
use crate::stamp::{Stamp, stamp_text, timestamp};

verus! {

/// The game's own save directory, under its root directory.
pub const NOITA_SAVE_DIRECTORY: &'static str = "save00";

/// This tool's directory, under the user's home directory.
pub const NAUTTAJA_DIRECTORY: &'static str = ".nauttaja";

/// Under this tool's directory: one subdirectory per storage id.
pub const NAUTTAJA_SAVES_DIRECTORY: &'static str = "saves";

/// Under this tool's directory: the copy of the live directory taken before a load.
pub const NAUTTAJA_LAST_REPLACED_DIRECTORY: &'static str = "backup";

/// Under this tool's directory: the record document.
pub const NAUTTAJA_GAMEDB_FILE: &'static str = "gamedb.json";

/// A lowercase hexadecimal digit.
pub open spec fn is_lower_hex(c: char) -> bool {
    ('0' <= c && c <= '9') || ('a' <= c && c <= 'f')
}

/// The hyphenated text of a random (version 4, RFC 4122 variant) UUID:
/// 36 characters, `-` at 8, 13, 18 and 23, lowercase hex digits elsewhere,
/// the version digit `4` at 14 and a variant digit among `8`, `9`, `a`, `b` at 19.
pub open spec fn is_v4_hyphenated(r: Seq<char>) -> bool {
    &&& r.len() == 36
    &&& r[8] == '-' && r[13] == '-' && r[18] == '-' && r[23] == '-'
    &&& forall|i: int|
        0 <= i < 36 && i != 8 && i != 13 && i != 18 && i != 23 ==> is_lower_hex(#[trigger] r[i])
    &&& r[14] == '4'
    &&& (r[19] == '8' || r[19] == '9' || r[19] == 'a' || r[19] == 'b')
}

/// Relies on uuid's `Uuid::new_v4` and its hyphenated form: the random bytes
/// get version 4 and the RFC 4122 variant, and are written in lowercase hex
/// with hyphens after the 8th, 12th, 16th and 20th digit.
/// (`new_v4` panics when the system offers no random bytes.)
#[verifier::external_body]
fn random_hyphenated() -> (r: String)
    ensures
        is_v4_hyphenated(r@),
{
    uuid::Uuid::new_v4().to_hyphenated().to_string()
}

/// A fresh storage id: a random version 4 UUID in its hyphenated form.
pub fn uuid() -> (r: String)
    ensures
        is_v4_hyphenated(r@),
{
    random_hyphenated()
}

/// The live save directory of the game: `<root>\save00`.
pub fn noita_save_dir(config: &Config) -> (r: String)
    ensures
        r@ == config.noita_root_dir@ + seq!['\\'] + seq!['s', 'a', 'v', 'e', '0', '0'],
{
    proof {
        reveal_strlit("\\");
        reveal_strlit("save00");
    }
    let mut r = config.noita_root_dir.clone();
    r.append("\\");
    r.append(NOITA_SAVE_DIRECTORY);
    assert(NOITA_SAVE_DIRECTORY@ =~= seq!['s', 'a', 'v', 'e', '0', '0']);
    r
}

/// Records a save named `name` whose snapshot has been copied under the
/// storage id `directory`, stamped with the time now. Refused, with nothing
/// changed, when the name is taken or the id already referenced.
pub fn record_new_save(db: &mut GameDB, name: &str, directory: String) -> (r: Result<(), AddError>)
    requires
        old(db)@.wf(),
    ensures
        final(db)@.wf(),
        r is Ok <==> !old(db)@.holds_name(name@) && !old(db)@.holds_directory(directory@),
        r == Err::<(), AddError>(AddError::ExistsActive) <==> crate::record::has_name(old(db)@.saves, name@),
        r == Err::<(), AddError>(AddError::ExistsTrashed) <==> !crate::record::has_name(old(db)@.saves, name@)
            && crate::record::has_name(old(db)@.trash, name@),
        r is Ok ==> exists|s: Stamp|
            s.valid() && final(db)@ == old(db)@.with_save(
                SaveView { name: name@, directory: directory@, timestamp: stamp_text(s) },
            ),
        r is Err ==> final(db)@ == old(db)@,
{
    let t = timestamp();
    let save = Save { name: name.to_owned(), directory, timestamp: t };
    db.add_save(save)
}

} // verus!
