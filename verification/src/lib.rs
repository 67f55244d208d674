//! Spoiler-log report library.
//!
//! Parses a randomizer spoiler-log document into a validated in-memory
//! form and renders a text report that groups every placed item by item
//! name, listing each placement across a multi-world session, with a
//! fixed set of filler item names suppressed.

pub mod document;
pub mod parse;
pub mod report;
pub mod strings;

use vstd::prelude::*;

verus! {

use vstd::string::StringExecFns;
use crate::parse::ParseError;
use crate::parse::entries_of;
use crate::parse::json_doc_of;
use crate::parse::json_syntax_ok;
use crate::parse::schema_ok;
use crate::report::spec_report;
use crate::strings::views_of;

/// The fixed set of low-value filler item names that the report
/// suppresses; membership is exact, case-sensitive string equality.
pub open spec fn spec_default_ignored() -> Seq<Seq<char>> {
    seq![
        "Arrows (10)"@,
        "Arrows (30)"@,
        "Arrows (5)"@,
        "Bombs (10)"@,
        "Bombs (20)"@,
        "Bombs (5)"@,
        "Buy Arrows (10)"@,
        "Buy Arrows (30)"@,
        "Buy Arrows (50)"@,
        "Buy Blue Fire"@,
        "Buy Bombs (5) for 25 Rupees"@,
        "Buy Bombs (5) for 35 Rupees"@,
        "Buy Bombchu (10)"@,
        "Buy Bombchu (20)"@,
        "Buy Bombchu (5)"@,
        "Buy Bombs (10)"@,
        "Buy Bombs (20)"@,
        "Buy Bombs (30)"@,
        "Buy Bombs (5)"@,
        "Buy Bottle Bug"@,
        "Buy Deku Nut (5)"@,
        "Buy Deku Seeds (30)"@,
        "Buy Deku Stick (1)"@,
        "Buy Fairy's Spirit"@,
        "Buy Fish"@,
        "Buy Green Potion"@,
        "Buy Red Potion for 30 Rupees"@,
        "Ice Trap"@,
        "Piece of Heart"@,
        "Piece of Heart (Treasure Chest Game)"@,
        "Recovery Heart"@,
        "Rupee (1)"@,
        "Rupees (20)"@,
        "Rupees (200)"@,
        "Rupees (5)"@,
        "Rupees (50)"@
    ]
}

/// Builds the default ignore list.
#[verifier::rlimit(50)]
pub fn default_ignored_items() -> (r: Vec<String>)
    ensures
        views_of(r@) == spec_default_ignored(),
{
    let mut v: Vec<String> = Vec::new();
    v.push(String::from_str("Arrows (10)"));
    v.push(String::from_str("Arrows (30)"));
    v.push(String::from_str("Arrows (5)"));
    v.push(String::from_str("Bombs (10)"));
    v.push(String::from_str("Bombs (20)"));
    v.push(String::from_str("Bombs (5)"));
    v.push(String::from_str("Buy Arrows (10)"));
    v.push(String::from_str("Buy Arrows (30)"));
    v.push(String::from_str("Buy Arrows (50)"));
    v.push(String::from_str("Buy Blue Fire"));
    v.push(String::from_str("Buy Bombs (5) for 25 Rupees"));
    v.push(String::from_str("Buy Bombs (5) for 35 Rupees"));
    v.push(String::from_str("Buy Bombchu (10)"));
    v.push(String::from_str("Buy Bombchu (20)"));
    v.push(String::from_str("Buy Bombchu (5)"));
    v.push(String::from_str("Buy Bombs (10)"));
    v.push(String::from_str("Buy Bombs (20)"));
    v.push(String::from_str("Buy Bombs (30)"));
    v.push(String::from_str("Buy Bombs (5)"));
    v.push(String::from_str("Buy Bottle Bug"));
    v.push(String::from_str("Buy Deku Nut (5)"));
    v.push(String::from_str("Buy Deku Seeds (30)"));
    v.push(String::from_str("Buy Deku Stick (1)"));
    v.push(String::from_str("Buy Fairy's Spirit"));
    v.push(String::from_str("Buy Fish"));
    v.push(String::from_str("Buy Green Potion"));
    v.push(String::from_str("Buy Red Potion for 30 Rupees"));
    v.push(String::from_str("Ice Trap"));
    v.push(String::from_str("Piece of Heart"));
    v.push(String::from_str("Piece of Heart (Treasure Chest Game)"));
    v.push(String::from_str("Recovery Heart"));
    v.push(String::from_str("Rupee (1)"));
    v.push(String::from_str("Rupees (20)"));
    v.push(String::from_str("Rupees (200)"));
    v.push(String::from_str("Rupees (5)"));
    v.push(String::from_str("Rupees (50)"));
    proof {
        assert(views_of(v@) =~= spec_default_ignored());
    }
    v
}

/// Parses a spoiler-log text and renders its report with the default
/// ignore list.
///
/// Returns `SyntaxError` exactly when the text is not well-formed
/// JSON, `SchemaError` exactly when it is well-formed JSON whose
/// content does not match the spoiler-log schema, and otherwise the
/// report of exactly the placements that the text's `locations` map
/// describes.
pub fn parse_spoiler_log(spoiler_log_str: String) -> (r: Result<String, ParseError>)
    ensures
        r == Err::<String, ParseError>(ParseError::SyntaxError) <==> !json_syntax_ok(
            spoiler_log_str@,
        ),
        r == Err::<String, ParseError>(ParseError::SchemaError) <==> (json_syntax_ok(
            spoiler_log_str@,
        ) && !schema_ok(json_doc_of(spoiler_log_str@))),
        r is Ok <==> (json_syntax_ok(spoiler_log_str@) && schema_ok(
            json_doc_of(spoiler_log_str@),
        )),
        r matches Ok(rep) ==> rep@ == spec_report(
            entries_of(json_doc_of(spoiler_log_str@)),
            spec_default_ignored(),
        ),
{
    let doc = match crate::parse::parse_spoiler_document(spoiler_log_str.as_str()) {
        Ok(d) => d,
        Err(e) => {
            return Err(e);
        },
    };
    let ignored = default_ignored_items();
    let rep = crate::report::generate_report(&doc, &ignored);
    Ok(rep)
}

} // verus!
