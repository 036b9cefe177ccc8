//! The package updates model: the update checker's output read into
//! updates, and what the service does on a request.

use crate::tempo_calendar::{split_char, split_on};
use crate::text::views;
use vstd::prelude::*;

verus! {

/// An available update of a package.
pub struct Update {
    pub package: String,
    pub from: String,
    pub to: String,
}

/// Everything the bar shows of updates.
pub struct UpdatesData {
    pub updates: Vec<Update>,
    pub is_checking: bool,
}

impl Default for UpdatesData {
    /// Nothing known yet, and the first check under way.
    fn default() -> (r: Self)
        ensures
            r.updates@.len() == 0,
            r.is_checking,
    {
        UpdatesData { updates: Vec::new(), is_checking: true }
    }
}

/// A request of the bar.
pub enum UpdatesCmd {
    CheckNow,
    RunUpdate,
}

/// The fields of a line of the checker's output: `package from -> to`.
pub open spec fn update_fields(line: Seq<char>) -> Option<(Seq<char>, Seq<char>, Seq<char>)> {
    let data = split_char(line, ' ');
    if line.len() == 0 || data.len() < 4 {
        None
    } else {
        Some((data[0], data[1], data[3]))
    }
}

/// The updates a list of output lines states, in order.
pub open spec fn updates_of(lines: Seq<Seq<char>>) -> Seq<(Seq<char>, Seq<char>, Seq<char>)>
    decreases lines.len(),
{
    if lines.len() == 0 {
        Seq::empty()
    } else {
        updates_of(lines.drop_last()) + match update_fields(lines.last()) {
            Some(u) => seq![u],
            None => Seq::empty(),
        }
    }
}

/// Reads the checker's output: one update per non-empty line of at least
/// four space-separated fields, the package, the old version and (after
/// the arrow) the new one.
pub fn parse_updates(output: &str) -> (r: Vec<Update>)
    ensures
        ({
            let us = updates_of(split_char(output@, '\n'));
            &&& r@.len() == us.len()
            &&& forall|i: int|
                0 <= i < r@.len() ==> (#[trigger] r@[i]).package@ == us[i].0 && r@[i].from@ == us[i].1 && r@[i].to@
                    == us[i].2
        }),
{
    let lines = split_on(output, '\n');
    let ghost ls = views(lines@);
    let mut r: Vec<Update> = Vec::new();
    let mut i: usize = 0;
    while i < lines.len()
        invariant
            ls == views(lines@),
            ls == split_char(output@, '\n'),
            i <= lines@.len(),
            ({
                let us = updates_of(ls.take(i as int));
                &&& r@.len() == us.len()
                &&& forall|k: int|
                    0 <= k < r@.len() ==> (#[trigger] r@[k]).package@ == us[k].0 && r@[k].from@ == us[k].1 && r@[k].to@
                        == us[k].2
            }),
        decreases lines@.len() - i,
    {
        assert(ls.take(i + 1).drop_last() =~= ls.take(i as int));
        assert(ls.take(i + 1).last() == lines@[i as int]@);
        let line = lines[i].as_str();
        if line.unicode_len() > 0 {
            let data = split_on(line, ' ');
            if data.len() >= 4 {
                proof {
                    assert(views(data@)[0] == data@[0]@);
                    assert(views(data@)[1] == data@[1]@);
                    assert(views(data@)[3] == data@[3]@);
                }
                r.push(Update { package: data[0].clone(), from: data[1].clone(), to: data[3].clone() });
            }
        }
        i = i + 1;
    }
    assert(ls.take(lines@.len() as int) =~= ls);
    r
}

/// An update is run only when an update command is configured.
pub fn should_run_update(update_cmd: &str) -> (r: bool)
    ensures
        r == (update_cmd@.len() > 0),
{
    update_cmd.unicode_len() > 0
}

} // verus!
