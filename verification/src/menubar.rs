//! What the bar at the top knows: whether the server answers, which models it
//! offers, and which of them is chosen.

use vstd::prelude::*;
use crate::api::{same_model, ConnectionFailed, LocalModel};

verus! {

/// The state of the bar at the top.
pub struct Menubar {
    pub connected: bool,
    pub models: Vec<LocalModel>,
    pub selected: Option<LocalModel>,
}

impl Menubar {
    /// Not connected, no models, none chosen.
    pub fn new() -> (r: Self)
        ensures
            !r.connected,
            r.models@ == Seq::<LocalModel>::empty(),
            r.selected is None,
    {
        Self { connected: false, models: Vec::new(), selected: None }
    }

    /// Takes the models that the server offers now. With none on offer, none
    /// is chosen any more; otherwise the choice stays.
    pub fn set_models(&mut self, models: Vec<LocalModel>)
        ensures
            final(self).connected == old(self).connected,
            final(self).models == models,
            final(self).selected == if models@.len() == 0 {
                None
            } else {
                old(self).selected
            },
    {
        if models.len() == 0 {
            self.selected = None;
        }
        self.models = models;
    }

    /// Notes whether the server answers.
    pub fn set_connected(&mut self, connected: bool)
        ensures
            final(self).connected == connected,
            final(self).models == old(self).models,
            final(self).selected == old(self).selected,
    {
        self.connected = connected;
    }

    /// Chooses a model.
    pub fn select(&mut self, model: LocalModel)
        ensures
            final(self).connected == old(self).connected,
            final(self).models == old(self).models,
            final(self).selected == Some(model),
    {
        self.selected = Some(model);
    }
}

/// The two lists describe the same models in the same order: name, time of
/// change and size agree place by place.
pub open spec fn same_models(a: Seq<LocalModel>, b: Seq<LocalModel>) -> bool {
    &&& a.len() == b.len()
    &&& forall|i: int| 0 <= i < a.len() ==> same_model(#[trigger] a[i], b[i])
}

/// Whether the two lists describe the same models in the same order.
pub fn models_equal(a: &Vec<LocalModel>, b: &Vec<LocalModel>) -> (r: bool)
    ensures
        r == same_models(a@, b@),
{
    if a.len() != b.len() {
        return false;
    }
    let mut i: usize = 0;
    while i < a.len()
        invariant
            a@.len() == b@.len(),
            i <= a@.len(),
            forall|j: int| 0 <= j < i ==> same_model(#[trigger] a@[j], b@[j]),
        decreases a@.len() - i,
    {
        if !(a[i] == b[i]) {
            assert(!same_model(a@[i as int], b@[i as int]));
            return false;
        }
        i += 1;
    }
    true
}

/// What watching the server reports after one look at it.
pub enum MonitorReport {
    /// The server did not answer.
    Disconnected,
    /// The server answered, and offers what it offered at the last look.
    Connected,
    /// The server answered, and offers these models, which differ from those
    /// of the last look.
    ModelsChanged(Vec<LocalModel>),
}

/// One look at the server, of which `previous` holds the models seen at the
/// last successful look. A failure is reported and leaves `previous` as it
/// is. An answer with the same models is reported as a mere connection. An
/// answer with other models is reported with them, and they become
/// `previous`.
pub fn monitor_step(
    previous: &mut Vec<LocalModel>,
    outcome: Result<Vec<LocalModel>, ConnectionFailed>,
) -> (r: MonitorReport)
    ensures
        match outcome {
            Err(_) => r is Disconnected && *final(previous) == *old(previous),
            Ok(models) => if same_models(old(previous)@, models@) {
                r is Connected && *final(previous) == *old(previous)
            } else {
                &&& r matches MonitorReport::ModelsChanged(reported) && reported == models
                &&& same_models(final(previous)@, models@)
            },
        },
{
    match outcome {
        Err(_) => MonitorReport::Disconnected,
        Ok(models) => {
            if models_equal(previous, &models) {
                MonitorReport::Connected
            } else {
                *previous = copy_models(&models);
                MonitorReport::ModelsChanged(models)
            }
        },
    }
}

/// A copy of the list that describes the same models.
fn copy_models(models: &Vec<LocalModel>) -> (r: Vec<LocalModel>)
    ensures
        same_models(r@, models@),
{
    let mut r: Vec<LocalModel> = Vec::new();
    let mut i: usize = 0;
    while i < models.len()
        invariant
            i <= models@.len(),
            r@.len() == i,
            forall|j: int| 0 <= j < i ==> same_model(#[trigger] r@[j], models@[j]),
        decreases models@.len() - i,
    {
        let m = &models[i];
        r.push(
            LocalModel { name: m.name.clone(), modified_at: m.modified_at.clone(), size: m.size },
        );
        i += 1;
    }
    r
}

} // verus!
