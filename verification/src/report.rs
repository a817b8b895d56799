//! Short texts for reports: ages, versions, optional values.

use crate::decimal::{dec_text, push_decimal};
use crate::slug::push_char;
use vstd::prelude::*;
use vstd::string::StringExecFns;

verus! {

/// An age in its largest unit: seconds under a minute, minutes under an
/// hour, hours under a day, else days. A time that has not come yet has no
/// age, and gives the empty text.
pub open spec fn age_text(elapsed: Option<u64>) -> Seq<char> {
    match elapsed {
        None => Seq::empty(),
        Some(s) => if s < 60 {
            dec_text(s as nat).push('s')
        } else if s / 60 < 60 {
            dec_text((s / 60) as nat).push('m')
        } else if s / 3600 < 24 {
            dec_text((s / 3600) as nat).push('h')
        } else {
            dec_text((s / 86400) as nat).push('d')
        },
    }
}

/// The age of a resource in a readable form, from the seconds that have
/// passed since it was made: `None` where that time lies ahead.
pub fn age(elapsed: Option<u64>) -> (r: String)
    ensures
        r@ == age_text(elapsed),
{
    let mut r = String::new();
    match elapsed {
        None => {},
        Some(s) => {
            if s < 60 {
                push_decimal(&mut r, s);
                push_char(&mut r, 's');
            } else if s / 60 < 60 {
                push_decimal(&mut r, s / 60);
                push_char(&mut r, 'm');
            } else if s / 3600 < 24 {
                push_decimal(&mut r, s / 3600);
                push_char(&mut r, 'h');
            } else {
                push_decimal(&mut r, s / 86400);
                push_char(&mut r, 'd');
            }
        },
    }
    assert(r@ =~= age_text(elapsed));
    r
}

/// What is known of the build.
#[derive(Debug)]
pub struct BuildInfo {
    pub tag: String,
    pub branch: String,
    pub commit_hash: String,
    pub build_time: String,
}

/// The short version: the tag, or the commit hash where there is no tag.
pub open spec fn short_version(build: BuildInfo) -> Seq<char> {
    if build.tag@.len() == 0 {
        build.commit_hash@
    } else {
        build.tag@
    }
}

pub open spec fn version_text(long: bool, build: BuildInfo) -> Seq<char> {
    if !long {
        short_version(build)
    } else {
        short_version(build) + "\nbranch:"@ + build.branch@ + "\ncommit_hash:"@
            + build.commit_hash@ + "\nbuild_time:"@ + build.build_time@
    }
}

/// The version banner, short or long.
pub fn version(long: bool, build: &BuildInfo) -> (r: String)
    ensures
        r@ == version_text(long, *build),
{
    let mut r = if build.tag.as_str().is_empty() {
        build.commit_hash.clone()
    } else {
        build.tag.clone()
    };
    if long {
        r.append("\nbranch:");
        r.append(build.branch.as_str());
        r.append("\ncommit_hash:");
        r.append(build.commit_hash.as_str());
        r.append("\nbuild_time:");
        r.append(build.build_time.as_str());
    }
    r
}

/// The text of an optional value in a table: a dash where there is none.
pub fn tabled_display_option(o: &Option<String>) -> (r: String)
    ensures
        r@ == match *o {
            Some(s) => s@,
            None => "-"@,
        },
{
    match o {
        Some(s) => s.clone(),
        None => String::from_str("-"),
    }
}

} // verus!
