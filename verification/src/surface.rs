//! Surface synchronization and the details projector: the render payload
//! pushed to the poll's surfaces after every mutation, and the paginated
//! per-date breakdown shown to a requester.

use vstd::prelude::*;
use vstd::string::StringExecFns;
use crate::scheduler::{Scheduler, Surface};
use crate::tally::{all_tally_lines, chunked, paginate, responded_summary, CHUNK_LIMIT};
use crate::textgen::{group_mention, group_mention_string, join, joined, views_of};

verus! {

/// An action rendered on a surface; the transport layer gives each its
/// fixed label and style.
#[derive(Clone, Copy, PartialEq, Eq, Structural, Debug)]
pub enum UiButton {
    AddResponse,
    ShowDetails,
    SelectAll,
    ClearAll,
    Submit,
    Delete,
    Blackout,
}

/// A contract breach between the UI and the handler.
#[derive(Clone, Copy, PartialEq, Eq, Structural, Debug)]
pub enum ProtocolError {
    UnknownAction,
    OversizedLine,
}

/// Everything one rendered poll surface shows: the group mention line,
/// the title, the closed-state banner, the two fields, and the actions.
pub struct RenderPayload {
    pub content: String,
    pub title: String,
    pub banner: String,
    pub responded: String,
    pub results: String,
    pub actions: Vec<UiButton>,
}

/// The paginated detailed breakdown, and the actions to attach to its
/// final chunk.
pub struct DetailsView {
    pub chunks: Vec<String>,
    pub final_actions: Vec<UiButton>,
}

impl Scheduler {
    /// The current render of the poll, and the surfaces to apply it to:
    /// the primary surface first, then the repost surface if one is set.
    pub fn update_messages(&self) -> (r: (RenderPayload, Vec<Surface>))
        requires
            self.wf(),
        ensures
            r.0.content@ == (match self.group {
                Some(g) => group_mention(g as int),
                None => Seq::<char>::empty(),
            }),
            r.0.title@ == self.title@,
            r.0.banner@ == (if self.closed {
                "Final results"@
            } else {
                Seq::<char>::empty()
            }),
            r.0.responded@ == responded_summary(self.responses@),
            r.0.results@ == joined(
                all_tally_lines(self.responses@, self.dates@, self.blackout_dates@, false),
                seq!['\n'],
            ),
            r.0.actions@ == (if self.closed {
                seq![UiButton::ShowDetails]
            } else {
                seq![UiButton::AddResponse, UiButton::ShowDetails]
            }),
            r.1@ == (match self.repost_message {
                None => seq![self.message],
                Some(m) => seq![self.message, m],
            }),
    {
        proof {
            reveal_strlit("\n");
        }
        let content = match self.group {
            Some(g) => group_mention_string(g),
            None => String::new(),
        };
        let title = String::from_str(self.title.as_str());
        let banner = if self.closed {
            String::from_str("Final results")
        } else {
            String::new()
        };
        let responded = self.get_responses();
        let lines = self.get_results(false);
        let results = join(&lines, "\n");
        proof {
            assert("\n"@ =~= seq!['\n']);
            assert(results@ == joined(
                all_tally_lines(self.responses@, self.dates@, self.blackout_dates@, false),
                seq!['\n'],
            ));
        }
        let mut actions: Vec<UiButton> = Vec::new();
        if !self.closed {
            actions.push(UiButton::AddResponse);
        }
        actions.push(UiButton::ShowDetails);
        proof {
            if self.closed {
                assert(actions@ =~= seq![UiButton::ShowDetails]);
            } else {
                assert(actions@ =~= seq![UiButton::AddResponse, UiButton::ShowDetails]);
            }
        }
        let mut targets: Vec<Surface> = Vec::new();
        targets.push(self.message);
        match self.repost_message {
            Some(m) => {
                targets.push(m);
                proof {
                    assert(targets@ =~= seq![self.message, m]);
                }
            },
            None => {
                proof {
                    assert(targets@ =~= seq![self.message]);
                }
            },
        }
        (
            RenderPayload { content, title, banner, responded, results, actions },
            targets,
        )
    }

    /// The detailed breakdown, split into chunks under the size ceiling,
    /// with the blackout action attached for the owner.  An oversized
    /// single line is a contract breach, reported as an error, never
    /// split or dropped.
    pub fn show_details(&self, requester: u64) -> (r: Result<DetailsView, ProtocolError>)
        requires
            self.wf(),
        ensures
            ({
                let lines = all_tally_lines(self.responses@, self.dates@, self.blackout_dates@, true);
                match r {
                    Ok(v) => {
                        &&& forall|i: int| 0 <= i < lines.len() ==> (#[trigger] lines[i]).len() < CHUNK_LIMIT
                        &&& views_of(v.chunks@) == chunked(lines, Seq::<char>::empty())
                        &&& v.final_actions@ == (if requester == self.owner {
                            seq![UiButton::Blackout]
                        } else {
                            Seq::<UiButton>::empty()
                        })
                    },
                    Err(e) => {
                        &&& e == ProtocolError::OversizedLine
                        &&& exists|i: int|
                            0 <= i < lines.len() && (#[trigger] lines[i]).len() >= CHUNK_LIMIT
                    },
                }
            }),
    {
        let lines = self.get_results(true);
        let ghost line_views = all_tally_lines(
            self.responses@,
            self.dates@,
            self.blackout_dates@,
            true,
        );
        let mut i: usize = 0;
        while i < lines.len()
            invariant
                i <= lines@.len(),
                views_of(lines@) == line_views,
                line_views == all_tally_lines(
                    self.responses@,
                    self.dates@,
                    self.blackout_dates@,
                    true,
                ),
                forall|k: int| 0 <= k < i ==> (#[trigger] line_views[k]).len() < CHUNK_LIMIT,
            decreases lines@.len() - i,
        {
            if lines[i].as_str().unicode_len() >= CHUNK_LIMIT {
                proof {
                    assert(line_views[i as int] == lines@[i as int]@);
                    assert(line_views[i as int].len() >= CHUNK_LIMIT);
                    assert(exists|k: int|
                        0 <= k < line_views.len() && (#[trigger] line_views[k]).len()
                            >= CHUNK_LIMIT);
                }
                return Err(ProtocolError::OversizedLine);
            }
            proof {
                assert(line_views[i as int] == lines@[i as int]@);
            }
            i = i + 1;
        }
        proof {
            assert forall|k: int| 0 <= k < lines@.len() implies (#[trigger] lines@[k])@.len()
                < CHUNK_LIMIT by {
                assert(line_views[k] == lines@[k]@);
            }
        }
        let chunks = paginate(&lines);
        let mut final_actions: Vec<UiButton> = Vec::new();
        if requester == self.owner {
            final_actions.push(UiButton::Blackout);
            proof {
                assert(final_actions@ =~= seq![UiButton::Blackout]);
            }
        }
        Ok(DetailsView { chunks, final_actions })
    }
}

} // verus!
