//! The decisions of the remote hosts settings page: which host the form
//! edits, which removal waits for confirmation, and what each action asks of
//! the page around it.

use vstd::prelude::*;
use crate::host_form::{
    form_fields_for, form_fields_spec, host_from_submission, HostFormFields, HostFormFieldsView,
    HostSubmission, RemoteHostsPageAction, RemoteHostsPageEvent, SaveError,
};
use crate::remote_hosts::{
    find_host, is_hyphenated_uuid, strings_view, upserted, RemoteHost, RemoteHostView,
    RemoteSessionsSettings,
};
use crate::panel::{host_target, host_target_spec};

verus! {

/// What the page asks its surroundings to do, in order.
#[derive(Debug)]
pub enum HostsPageEffect {
    /// Set the modal's title.
    SetTitle(String),
    /// Clear the form and write these texts into it.
    LoadForm(HostFormFields),
    /// Show the modal.
    OpenModal,
    /// Hide the modal.
    CloseModal,
    /// Tell the settings window.
    Emit(RemoteHostsPageEvent),
    /// Remove the host with this key from the settings.
    RemoveHost(String),
    /// Redraw.
    Notify,
}

pub enum HostsPageEffectView {
    SetTitle(Seq<char>),
    LoadForm(HostFormFieldsView),
    OpenModal,
    CloseModal,
    Emit(RemoteHostsPageEvent),
    RemoveHost(Seq<char>),
    Notify,
}

impl View for HostsPageEffect {
    type V = HostsPageEffectView;

    open spec fn view(&self) -> HostsPageEffectView {
        match self {
            HostsPageEffect::SetTitle(t) => HostsPageEffectView::SetTitle(t@),
            HostsPageEffect::LoadForm(f) => HostsPageEffectView::LoadForm(f@),
            HostsPageEffect::OpenModal => HostsPageEffectView::OpenModal,
            HostsPageEffect::CloseModal => HostsPageEffectView::CloseModal,
            HostsPageEffect::Emit(e) => HostsPageEffectView::Emit(*e),
            HostsPageEffect::RemoveHost(k) => HostsPageEffectView::RemoveHost(k@),
            HostsPageEffect::Notify => HostsPageEffectView::Notify,
        }
    }
}

pub open spec fn page_effects_view(v: Seq<HostsPageEffect>) -> Seq<HostsPageEffectView> {
    v.map_values(|e: HostsPageEffect| e@)
}

pub enum RemoteHostsPageActionView {
    ShowAddModal,
    ShowEditModal(Seq<char>),
    RequestRemoveHost(Seq<char>),
    ConfirmRemoveHost,
    CancelRemoveHost,
}

impl View for RemoteHostsPageAction {
    type V = RemoteHostsPageActionView;

    open spec fn view(&self) -> RemoteHostsPageActionView {
        match self {
            RemoteHostsPageAction::ShowAddModal => RemoteHostsPageActionView::ShowAddModal,
            RemoteHostsPageAction::ShowEditModal(k) => RemoteHostsPageActionView::ShowEditModal(k@),
            RemoteHostsPageAction::RequestRemoveHost(k) => RemoteHostsPageActionView::RequestRemoveHost(k@),
            RemoteHostsPageAction::ConfirmRemoveHost => RemoteHostsPageActionView::ConfirmRemoveHost,
            RemoteHostsPageAction::CancelRemoveHost => RemoteHostsPageActionView::CancelRemoveHost,
        }
    }
}

/// The page's own state: the key of the host the form edits (none for a new
/// host), the host whose removal waits for confirmation, and whether the
/// modal is shown.
pub struct HostsPageState {
    editing_key: Option<String>,
    pending_remove: Option<String>,
    modal_open: bool,
}

pub struct HostsPageStateView {
    pub editing_key: Option<Seq<char>>,
    pub pending_remove: Option<Seq<char>>,
    pub modal_open: bool,
}

impl View for HostsPageState {
    type V = HostsPageStateView;

    closed spec fn view(&self) -> HostsPageStateView {
        HostsPageStateView {
            editing_key: match self.editing_key {
                Some(k) => Some(k@),
                None => None,
            },
            pending_remove: match self.pending_remove {
                Some(k) => Some(k@),
                None => None,
            },
            modal_open: self.modal_open,
        }
    }
}

/// The effects of opening the modal on the form for `host`.
pub open spec fn open_effects(host: Option<RemoteHostView>) -> Seq<HostsPageEffectView> {
    seq![
        HostsPageEffectView::SetTitle(
            if host is Some {
                "Edit remote host"@
            } else {
                "Add remote host"@
            },
        ),
        HostsPageEffectView::LoadForm(form_fields_spec(host)),
        HostsPageEffectView::OpenModal,
        HostsPageEffectView::Emit(RemoteHostsPageEvent::ShowModal),
        HostsPageEffectView::Notify,
    ]
}

/// The effects of closing the modal.
pub open spec fn close_effects() -> Seq<HostsPageEffectView> {
    seq![
        HostsPageEffectView::CloseModal,
        HostsPageEffectView::Emit(RemoteHostsPageEvent::HideModal),
        HostsPageEffectView::Notify,
    ]
}

/// The state after an action and the effects it asks for.
///
/// Adding opens the empty form; editing opens the form on a configured host
/// and does nothing for an unknown key; a removal is asked for, cancelled or
/// confirmed, and only a confirmed one removes the host.
pub open spec fn page_step(
    s: HostsPageStateView,
    action: RemoteHostsPageActionView,
    hosts: Seq<RemoteHostView>,
) -> (HostsPageStateView, Seq<HostsPageEffectView>) {
    match action {
        RemoteHostsPageActionView::ShowAddModal => (
            HostsPageStateView { editing_key: None, modal_open: true, ..s },
            open_effects(None),
        ),
        RemoteHostsPageActionView::ShowEditModal(key) => match find_host(hosts, key) {
            Some(h) => (HostsPageStateView { editing_key: Some(key), modal_open: true, ..s }, open_effects(Some(h))),
            None => (s, Seq::<HostsPageEffectView>::empty()),
        },
        RemoteHostsPageActionView::RequestRemoveHost(key) => (
            HostsPageStateView { pending_remove: Some(key), ..s },
            seq![HostsPageEffectView::Notify],
        ),
        RemoteHostsPageActionView::CancelRemoveHost => (
            HostsPageStateView { pending_remove: None, ..s },
            seq![HostsPageEffectView::Notify],
        ),
        RemoteHostsPageActionView::ConfirmRemoveHost => match s.pending_remove {
            Some(key) => (
                HostsPageStateView { pending_remove: None, ..s },
                seq![HostsPageEffectView::RemoveHost(key), HostsPageEffectView::Notify],
            ),
            None => (s, Seq::<HostsPageEffectView>::empty()),
        },
    }
}

fn open_modal_effects(host: Option<&RemoteHost>) -> (r: Vec<HostsPageEffect>)
    ensures
        page_effects_view(r@) == open_effects(
            match host {
                Some(h) => Some(h@),
                None => None,
            },
        ),
{
    let mut fx: Vec<HostsPageEffect> = Vec::new();
    let title = match host {
        Some(_) => String::from_str("Edit remote host"),
        None => String::from_str("Add remote host"),
    };
    fx.push(HostsPageEffect::SetTitle(title));
    fx.push(HostsPageEffect::LoadForm(form_fields_for(host)));
    fx.push(HostsPageEffect::OpenModal);
    fx.push(HostsPageEffect::Emit(RemoteHostsPageEvent::ShowModal));
    fx.push(HostsPageEffect::Notify);
    assert(page_effects_view(fx@) =~= open_effects(
        match host {
            Some(h) => Some(h@),
            None => None,
        },
    ));
    fx
}

impl HostsPageState {
    /// No host edited, nothing waiting for confirmation, the modal hidden.
    pub fn new() -> (r: Self)
        ensures
            r@.editing_key is None,
            r@.pending_remove is None,
            !r@.modal_open,
    {
        HostsPageState { editing_key: None, pending_remove: None, modal_open: false }
    }

    /// The host whose removal waits for confirmation.
    pub fn pending_remove(&self) -> (r: Option<&String>)
        ensures
            match r {
                Some(k) => self@.pending_remove == Some(k@),
                None => self@.pending_remove is None,
            },
    {
        match &self.pending_remove {
            Some(k) => Some(k),
            None => None,
        }
    }

    /// The key of the host the form edits.
    pub fn editing_key(&self) -> (r: Option<&String>)
        ensures
            match r {
                Some(k) => self@.editing_key == Some(k@),
                None => self@.editing_key is None,
            },
    {
        match &self.editing_key {
            Some(k) => Some(k),
            None => None,
        }
    }

    /// Whether the modal is shown.
    pub fn modal_open(&self) -> (r: bool)
        ensures
            r == self@.modal_open,
    {
        self.modal_open
    }

    /// Takes in an action; see [`page_step`].
    pub fn handle_action(
        &mut self,
        action: &RemoteHostsPageAction,
        settings: &RemoteSessionsSettings,
    ) -> (effects: Vec<HostsPageEffect>)
        ensures
            (final(self)@, page_effects_view(effects@)) == page_step(old(self)@, action@, settings@.hosts),
    {
        match action {
            RemoteHostsPageAction::ShowAddModal => {
                self.editing_key = None;
                self.modal_open = true;
                open_modal_effects(None)
            },
            RemoteHostsPageAction::ShowEditModal(key) => match settings.host_by_key(key.as_str()) {
                Some(h) => {
                    self.editing_key = Some(key.clone());
                    self.modal_open = true;
                    open_modal_effects(Some(h))
                },
                None => {
                    let fx: Vec<HostsPageEffect> = Vec::new();
                    assert(page_effects_view(fx@) =~= Seq::<HostsPageEffectView>::empty());
                    fx
                },
            },
            RemoteHostsPageAction::RequestRemoveHost(key) => {
                self.pending_remove = Some(key.clone());
                let fx = vec![HostsPageEffect::Notify];
                assert(page_effects_view(fx@) =~= seq![HostsPageEffectView::Notify]);
                fx
            },
            RemoteHostsPageAction::CancelRemoveHost => {
                self.pending_remove = None;
                let fx = vec![HostsPageEffect::Notify];
                assert(page_effects_view(fx@) =~= seq![HostsPageEffectView::Notify]);
                fx
            },
            RemoteHostsPageAction::ConfirmRemoveHost => match self.pending_remove.take() {
                Some(key) => {
                    let fx = vec![HostsPageEffect::RemoveHost(key), HostsPageEffect::Notify];
                    assert(page_effects_view(fx@) =~= seq![
                        HostsPageEffectView::RemoveHost(old(self)@.pending_remove->0),
                        HostsPageEffectView::Notify,
                    ]);
                    fx
                },
                None => {
                    let fx: Vec<HostsPageEffect> = Vec::new();
                    assert(page_effects_view(fx@) =~= Seq::<HostsPageEffectView>::empty());
                    fx
                },
            },
        }
    }

    /// Closes the modal, as its close button or the form's cancel does: no
    /// host is edited any more.
    pub fn close_modal(&mut self) -> (effects: Vec<HostsPageEffect>)
        ensures
            final(self)@ == (HostsPageStateView { editing_key: None, modal_open: false, ..old(self)@ }),
            page_effects_view(effects@) == close_effects(),
    {
        self.editing_key = None;
        self.modal_open = false;
        let fx = vec![
            HostsPageEffect::CloseModal,
            HostsPageEffect::Emit(RemoteHostsPageEvent::HideModal),
            HostsPageEffect::Notify,
        ];
        assert(page_effects_view(fx@) =~= close_effects());
        fx
    }

    /// Saves what the form submitted, under the edited host's key and
    /// creation time (a fresh key and the current time for a new host), and
    /// closes the modal. When the key or the time cannot be had, nothing
    /// changes and the modal stays open; editing a configured host always
    /// saves.
    pub fn save_host(
        &mut self,
        settings: &mut RemoteSessionsSettings,
        submission: HostSubmission,
    ) -> (r: Result<Vec<HostsPageEffect>, SaveError>)
        ensures
            final(settings)@.heartbeat_interval_seconds == old(settings)@.heartbeat_interval_seconds,
            (old(self)@.editing_key matches Some(k) && find_host(old(settings)@.hosts, k) is Some) ==> r is Ok,
            match r {
                Ok(effects) => {
                    &&& final(self)@ == (HostsPageStateView { editing_key: None, modal_open: false, ..old(self)@ })
                    &&& page_effects_view(effects@) == close_effects()
                    &&& exists|key: Seq<char>, created_at: i64|
                        {
                            &&& final(settings)@.hosts == upserted(
                                old(settings)@.hosts,
                                host_from_submission(submission@, key, created_at),
                            )
                            &&& match old(self)@.editing_key {
                                Some(k) => key == k && match find_host(old(settings)@.hosts, k) {
                                    Some(existing) => created_at == existing.created_at,
                                    None => created_at >= 0,
                                },
                                None => is_hyphenated_uuid(key) && created_at >= 0,
                            }
                        }
                },
                Err(_) => final(self)@ == old(self)@ && final(settings)@ == old(settings)@,
            },
    {
        let editing = match &self.editing_key {
            Some(k) => Some(k.clone()),
            None => None,
        };
        match settings.save_submission(editing, submission) {
            Ok(()) => Ok(self.close_modal()),
            Err(e) => Err(e),
        }
    }
}

/// The lines a host's row on the page shows: its alias, its target, and
/// its identity file when one is set.
pub open spec fn host_details_spec(h: RemoteHostView) -> Seq<Seq<char>> {
    seq![h.alias, host_target_spec(h)] + match h.identity_file {
        Some(f) => if f.len() > 0 {
            seq![f]
        } else {
            Seq::<Seq<char>>::empty()
        },
        None => Seq::<Seq<char>>::empty(),
    }
}

/// The lines of a host's row on the page; see [`host_details_spec`].
pub fn host_details(host: &RemoteHost) -> (r: Vec<String>)
    ensures
        strings_view(r@) == host_details_spec(host@),
{
    let mut lines: Vec<String> = Vec::new();
    lines.push(host.alias.clone());
    lines.push(host_target(host));
    if let Some(id) = host.identity_file_arg() {
        lines.push(String::from_str(id));
    }
    assert(strings_view(lines@) =~= host_details_spec(host@));
    lines
}

/// A removal asked for and then confirmed removes that host from the
/// settings, and nothing else; asked for and then cancelled, it removes
/// nothing.
pub proof fn lemma_page_remove_flow(s: HostsPageStateView, key: Seq<char>, hosts: Seq<RemoteHostView>)
    ensures
        ({
            let s1 = page_step(s, RemoteHostsPageActionView::RequestRemoveHost(key), hosts).0;
            &&& page_step(s1, RemoteHostsPageActionView::ConfirmRemoveHost, hosts) == (
                HostsPageStateView { pending_remove: None, ..s },
                seq![HostsPageEffectView::RemoveHost(key), HostsPageEffectView::Notify],
            )
            &&& page_step(s1, RemoteHostsPageActionView::CancelRemoveHost, hosts) == (
                HostsPageStateView { pending_remove: None, ..s },
                seq![HostsPageEffectView::Notify],
            )
        }),
{
}

/// Opening the form on a configured host fills it with that host and marks
/// it as the one being edited; so a later save keeps its key.
pub proof fn lemma_edit_opens_that_host(s: HostsPageStateView, key: Seq<char>, hosts: Seq<RemoteHostView>)
    requires
        find_host(hosts, key) is Some,
    ensures
        ({
            let (s1, fx) = page_step(s, RemoteHostsPageActionView::ShowEditModal(key), hosts);
            &&& s1.editing_key == Some(key)
            &&& s1.modal_open
            &&& fx[1] == HostsPageEffectView::LoadForm(form_fields_spec(find_host(hosts, key)))
        }),
{
}

} // verus!
