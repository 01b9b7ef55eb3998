//! Updates of single client properties.

use vstd::prelude::*;
use super::ClientSet;
use crate::geometry::Geometry;
use crate::ids::ClientId;
use crate::outputs::OutputCoverage;
use crate::policy::{
    policy_with_decoration_override, update_maximized_geometry, Client, ClientLayer, ClientPolicy,
    ClientPresentation, DecorationOverride, FullscreenState, Gravity, MaximizeState,
    TransientTarget,
};
use crate::size::SizeHints;

verus! {

/// A client with other maximize axes, and the geometry to apply where it changes.
fn maximized(
    client: Client,
    horizontal: bool,
    vertical: bool,
    available: Geometry,
) -> (changed: (Client, Option<Geometry>))
    ensures
        changed.0 == client.after_maximize(horizontal, vertical, available),
        changed.0.id == client.id,
        changed.0.workspace == client.workspace,
        client.decorated_as_preferred() ==> changed.0.decorated_as_preferred(),
        changed.1 == (if client.fullscreen is None && client.maximize_changes(
            horizontal,
            vertical,
            available,
        ) {
            Some(client.maximized_geometry(horizontal, vertical, available))
        } else {
            None
        }),
{
    let mut changed: Client = client;
    if let Some(fullscreen) = client.fullscreen {
        changed.geometry = fullscreen.restore;
        let _ = update_maximized_geometry(&mut changed, horizontal, vertical, available);
        let restore: Geometry = changed.geometry;
        changed.geometry = client.geometry;
        changed.fullscreen = Some(FullscreenState { restore });
        return (changed, None);
    }
    let applied: Option<Geometry> = update_maximized_geometry(
        &mut changed,
        horizontal,
        vertical,
        available,
    );
    (changed, applied)
}

/// A client that is fullscreen or no longer, and the geometry to apply where it changes.
fn made_fullscreen(client: Client, fullscreen: bool, output: Geometry) -> (changed: (
    Client,
    Option<Geometry>,
))
    ensures
        changed.0 == client.after_fullscreen(fullscreen, output),
        changed.0.id == client.id,
        changed.0.workspace == client.workspace,
        client.decorated_as_preferred() ==> changed.0.decorated_as_preferred(),
        changed.1 == client.fullscreen_result(fullscreen, output),
{
    let mut changed: Client = client;
    let applied: Option<Geometry> = match client.fullscreen {
        None => {
            if fullscreen {
                changed.fullscreen = Some(FullscreenState { restore: client.geometry });
                changed.geometry = output;
                Some(output)
            } else {
                None
            }
        },
        Some(state) => {
            if !fullscreen {
                changed.fullscreen = None;
                changed.geometry = state.restore;
                Some(state.restore)
            } else if client.geometry == output {
                None
            } else {
                changed.geometry = output;
                Some(output)
            }
        },
    };
    (changed, applied)
}

impl ClientSet {
    /// Copies the state of a managed client.
    pub(super) fn copy_of(&self, id: ClientId) -> (client: Option<Client>)
        requires
            self@.wf(),
        ensures
            client == (if self@.has(id) {
                Some(self@.client(id))
            } else {
                None
            }),
            client matches Some(c) ==> c.id == id && self@.accepts(c.workspace),
    {
        match self.clients.get(id) {
            Some(client) => {
                assert(self@.clients.contains_key(id.0));
                Some(*client)
            },
            None => None,
        }
    }

    /// Updates a managed client's geometry.
    pub fn set_geometry(&mut self, id: ClientId, geometry: Geometry) -> (managed: bool)
        requires
            old(self)@.wf(),
        ensures
            final(self)@.wf(),
            managed == old(self)@.has(id),
            final(self)@ == (if managed {
                old(self)@.with_client(old(self)@.client(id).with_geometry(geometry))
            } else {
                old(self)@
            }),
    {
        let mut client: Client = match self.copy_of(id) {
            Some(client) => client,
            None => {
                return false;
            },
        };
        client.geometry = geometry;
        if let Some(state) = client.maximize {
            let mut restore: Geometry = state.restore;
            if !state.horizontal {
                restore.x = geometry.x;
                restore.width = geometry.width;
            }
            if !state.vertical {
                restore.y = geometry.y;
                restore.height = geometry.height;
            }
            client.maximize = Some(
                MaximizeState { horizontal: state.horizontal, vertical: state.vertical, restore },
            );
        }
        self.store(client);
        true
    }

    /// Updates exact output coverage discovered by a display backend.
    pub fn set_output_coverage(&mut self, id: ClientId, coverage: Option<OutputCoverage>) -> (changed:
        bool)
        requires
            old(self)@.wf(),
        ensures
            final(self)@.wf(),
            changed == (old(self)@.has(id) && old(self)@.client(id).output_coverage != coverage),
            final(self)@ == (if changed {
                old(self)@.with_client(
                    (Client { output_coverage: coverage, ..old(self)@.client(id) }),
                )
            } else {
                old(self)@
            }),
    {
        let mut client: Client = match self.copy_of(id) {
            Some(client) => client,
            None => {
                return false;
            },
        };
        if client.output_coverage == coverage {
            return false;
        }
        client.output_coverage = coverage;
        self.store(client);
        true
    }

    /// Changes maximize axes and returns geometry to apply when state changed.
    pub fn set_maximized(
        &mut self,
        id: ClientId,
        horizontal: bool,
        vertical: bool,
        available: Geometry,
    ) -> (applied: Option<Geometry>)
        requires
            old(self)@.wf(),
        ensures
            final(self)@.wf(),
            ({
                let client = old(self)@.client(id);
                let permitted = old(self)@.has(id) && (!(horizontal || vertical)
                    || client.policy.capabilities.maximizable);
                &&& final(self)@ == (if permitted {
                    old(self)@.with_client(client.after_maximize(horizontal, vertical, available))
                } else {
                    old(self)@
                })
                &&& applied == (if permitted && client.fullscreen is None
                    && client.maximize_changes(horizontal, vertical, available) {
                    Some(client.maximized_geometry(horizontal, vertical, available))
                } else {
                    None
                })
            }),
    {
        let client: Client = match self.copy_of(id) {
            Some(client) => client,
            None => {
                return None;
            },
        };
        if (horizontal || vertical) && !client.policy.capabilities.maximizable {
            return None;
        }
        let (changed, applied): (Client, Option<Geometry>) = maximized(
            client,
            horizontal,
            vertical,
            available,
        );
        self.store(changed);
        applied
    }

    /// Changes fullscreen state and returns geometry to apply when it changed.
    pub fn set_fullscreen(&mut self, id: ClientId, fullscreen: bool, output: Geometry) -> (applied:
        Option<Geometry>)
        requires
            old(self)@.wf(),
        ensures
            final(self)@.wf(),
            ({
                let client = old(self)@.client(id);
                let permitted = old(self)@.has(id) && (!fullscreen
                    || client.policy.capabilities.fullscreenable);
                &&& final(self)@ == (if permitted {
                    old(self)@.with_client(client.after_fullscreen(fullscreen, output))
                } else {
                    old(self)@
                })
                &&& applied == (if permitted {
                    client.fullscreen_result(fullscreen, output)
                } else {
                    None
                })
            }),
    {
        let client: Client = match self.copy_of(id) {
            Some(client) => client,
            None => {
                return None;
            },
        };
        if fullscreen && !client.policy.capabilities.fullscreenable {
            return None;
        }
        let (changed, applied): (Client, Option<Geometry>) = made_fullscreen(
            client,
            fullscreen,
            output,
        );
        self.store(changed);
        applied
    }

    /// Updates a managed client's requested stacking layer.
    pub fn set_layer(&mut self, id: ClientId, layer: ClientLayer) -> (changed: bool)
        requires
            old(self)@.wf(),
        ensures
            final(self)@.wf(),
            changed == (old(self)@.has(id) && old(self)@.client(id).layer != layer),
            final(self)@ == (if changed {
                old(self)@.with_client((Client { layer, ..old(self)@.client(id) }))
            } else {
                old(self)@
            }),
    {
        let mut client: Client = match self.copy_of(id) {
            Some(client) => client,
            None => {
                return false;
            },
        };
        if client.layer == layer {
            return false;
        }
        client.layer = layer;
        self.store(client);
        true
    }

    /// Updates size constraints for a managed client.
    pub fn set_size_hints(&mut self, id: ClientId, size_hints: SizeHints) -> (managed: bool)
        requires
            old(self)@.wf(),
        ensures
            final(self)@.wf(),
            managed == old(self)@.has(id),
            final(self)@ == (if managed {
                old(self)@.with_client((Client { size_hints, ..old(self)@.client(id) }))
            } else {
                old(self)@
            }),
    {
        let mut client: Client = match self.copy_of(id) {
            Some(client) => client,
            None => {
                return false;
            },
        };
        client.size_hints = size_hints;
        self.store(client);
        true
    }

    /// Updates window gravity for a managed client.
    pub fn set_gravity(&mut self, id: ClientId, gravity: Gravity) -> (managed: bool)
        requires
            old(self)@.wf(),
        ensures
            final(self)@.wf(),
            managed == old(self)@.has(id),
            final(self)@ == (if managed {
                old(self)@.with_client((Client { gravity, ..old(self)@.client(id) }))
            } else {
                old(self)@
            }),
    {
        let mut client: Client = match self.copy_of(id) {
            Some(client) => client,
            None => {
                return false;
            },
        };
        client.gravity = gravity;
        self.store(client);
        true
    }

    /// Updates a managed client's functional policy.
    pub fn set_policy(&mut self, id: ClientId, policy: ClientPolicy) -> (changed: bool)
        requires
            old(self)@.wf(),
        ensures
            final(self)@.wf(),
            changed == (old(self)@.has(id) && old(self)@.client(id).with_policy(policy)
                != old(self)@.client(id)),
            final(self)@ == (if changed {
                old(self)@.with_client(old(self)@.client(id).with_policy(policy))
            } else {
                old(self)@
            }),
    {
        let mut client: Client = match self.copy_of(id) {
            Some(client) => client,
            None => {
                return false;
            },
        };
        let effective: ClientPolicy = policy_with_decoration_override(
            policy,
            policy.decorations,
            client.decoration_override,
        );
        if client.natural_decorations == policy.decorations && client.policy == effective {
            return false;
        }
        client.natural_decorations = policy.decorations;
        client.policy = effective;
        self.store(client);
        true
    }

    /// Toggles a reversible user override for server-side decorations.
    ///
    /// Returns the effective policy when the client supports decorations.
    pub fn toggle_decorations(&mut self, id: ClientId) -> (policy: Option<ClientPolicy>)
        requires
            old(self)@.wf(),
        ensures
            final(self)@.wf(),
            ({
                let client = old(self)@.client(id);
                let toggled = client.with_preference(client.toggled_preference());
                if old(self)@.has(id) && client.can_redecorate() {
                    &&& final(self)@ == old(self)@.with_client(toggled)
                    &&& policy == Some(toggled.policy)
                } else {
                    &&& final(self)@ == old(self)@
                    &&& policy is None
                }
            }),
    {
        let mut client: Client = match self.copy_of(id) {
            Some(client) => client,
            None => {
                return None;
            },
        };
        if !ClientPolicy::for_role(client.policy.role).decorations.is_present()
            || client.fullscreen.is_some() {
            return None;
        }
        client.decoration_override = match client.decoration_override {
            DecorationOverride::Default => {
                if client.policy.decorations.is_present() {
                    DecorationOverride::Undecorated
                } else {
                    DecorationOverride::Decorated
                }
            },
            DecorationOverride::Decorated | DecorationOverride::Undecorated => {
                DecorationOverride::Default
            },
        };
        client.policy = policy_with_decoration_override(
            client.policy,
            client.natural_decorations,
            client.decoration_override,
        );
        self.store(client);
        Some(client.policy)
    }

    /// Applies an explicit user decoration preference.
    ///
    /// [`DecorationOverride::Default`] restores the client's live hints and
    /// configured application policy. Fullscreen clients and roles that can
    /// never carry decorations reject the request. The effective policy is
    /// returned only when the preference changed.
    pub fn set_decoration_override(&mut self, id: ClientId, preference: DecorationOverride) -> (policy:
        Option<ClientPolicy>)
        requires
            old(self)@.wf(),
        ensures
            final(self)@.wf(),
            ({
                let client = old(self)@.client(id);
                let changed = client.with_preference(preference);
                if old(self)@.has(id) && client.can_redecorate() && client.decoration_override
                    != preference {
                    &&& final(self)@ == old(self)@.with_client(changed)
                    &&& policy == Some(changed.policy)
                } else {
                    &&& final(self)@ == old(self)@
                    &&& policy is None
                }
            }),
    {
        let mut client: Client = match self.copy_of(id) {
            Some(client) => client,
            None => {
                return None;
            },
        };
        if !ClientPolicy::for_role(client.policy.role).decorations.is_present()
            || client.fullscreen.is_some() || client.decoration_override == preference {
            return None;
        }
        client.decoration_override = preference;
        client.policy = policy_with_decoration_override(
            client.policy,
            client.natural_decorations,
            client.decoration_override,
        );
        self.store(client);
        Some(client.policy)
    }

    /// Replaces task-list, pager, and attention presentation hints.
    pub fn set_presentation(&mut self, id: ClientId, presentation: ClientPresentation) -> (changed:
        bool)
        requires
            old(self)@.wf(),
        ensures
            final(self)@.wf(),
            changed == (old(self)@.has(id) && old(self)@.client(id).presentation != presentation),
            final(self)@ == (if changed {
                old(self)@.with_client((Client { presentation, ..old(self)@.client(id) }))
            } else {
                old(self)@
            }),
    {
        let mut client: Client = match self.copy_of(id) {
            Some(client) => client,
            None => {
                return false;
            },
        };
        if client.presentation == presentation {
            return false;
        }
        client.presentation = presentation;
        self.store(client);
        true
    }

    /// Updates transient, group, and modal relationships for a managed client.
    pub fn set_relationships(
        &mut self,
        id: ClientId,
        transient_for: Option<TransientTarget>,
        group: Option<ClientId>,
        modal: bool,
    ) -> (changed: bool)
        requires
            old(self)@.wf(),
        ensures
            final(self)@.wf(),
            ({
                let client = old(self)@.client(id);
                let related = client.with_relationships(transient_for, group, modal);
                &&& changed == (old(self)@.has(id) && related != client)
                &&& final(self)@ == (if changed {
                    old(self)@.with_client(related)
                } else {
                    old(self)@
                })
            }),
    {
        let mut client: Client = match self.copy_of(id) {
            Some(client) => client,
            None => {
                return false;
            },
        };
        let transient_for: Option<TransientTarget> = match transient_for {
            Some(TransientTarget::Client(parent)) => {
                if parent == id {
                    None
                } else {
                    transient_for
                }
            },
            _ => transient_for,
        };
        if client.transient_for == transient_for && client.group == group && client.modal == modal {
            return false;
        }
        client.transient_for = transient_for;
        client.group = group;
        client.modal = modal;
        self.store(client);
        true
    }

    /// Updates only the modal state of a managed client.
    pub fn set_modal(&mut self, id: ClientId, modal: bool) -> (managed: bool)
        requires
            old(self)@.wf(),
        ensures
            final(self)@.wf(),
            managed == old(self)@.has(id),
            final(self)@ == (if managed {
                old(self)@.with_client((Client { modal, ..old(self)@.client(id) }))
            } else {
                old(self)@
            }),
    {
        let mut client: Client = match self.copy_of(id) {
            Some(client) => client,
            None => {
                return false;
            },
        };
        client.modal = modal;
        self.store(client);
        true
    }

    /// Updates whether a managed client is iconified.
    pub fn set_iconic(&mut self, id: ClientId, iconic: bool) -> (managed: bool)
        requires
            old(self)@.wf(),
        ensures
            final(self)@.wf(),
            managed == old(self)@.has(id),
            final(self)@ == ({
                let stored = old(self)@.with_client(
                    (Client { iconic, ..old(self)@.client(id) }),
                );
                if !managed {
                    old(self)@
                } else if iconic && old(self)@.focused == Some(id) {
                    stored.recovered()
                } else {
                    stored
                }
            }),
    {
        let mut client: Client = match self.copy_of(id) {
            Some(client) => client,
            None => {
                return false;
            },
        };
        client.iconic = iconic;
        self.store(client);
        if iconic && self.focused == Some(id) {
            self.recover_focus();
        }
        true
    }

    /// Updates whether a titlebar-bearing, non-fullscreen client is shaded.
    pub fn set_shaded(&mut self, id: ClientId, shaded: bool) -> (changed: bool)
        requires
            old(self)@.wf(),
        ensures
            final(self)@.wf(),
            ({
                let client = old(self)@.client(id);
                &&& changed == (old(self)@.has(id) && client.shaded != shaded && (!shaded || (
                client.policy.decorations.titlebar && client.fullscreen is None)))
                &&& final(self)@ == (if changed {
                    old(self)@.with_client((Client { shaded, ..client }))
                } else {
                    old(self)@
                })
            }),
    {
        let mut client: Client = match self.copy_of(id) {
            Some(client) => client,
            None => {
                return false;
            },
        };
        if shaded && (!client.policy.decorations.titlebar || client.fullscreen.is_some()) {
            return false;
        }
        if client.shaded == shaded {
            return false;
        }
        client.shaded = shaded;
        self.store(client);
        true
    }

    /// Returns a managed client.
    #[must_use]
    pub fn get(&self, id: ClientId) -> (client: Option<&Client>)
        ensures
            client == (if self@.has(id) {
                Some(&self@.client(id))
            } else {
                None
            }),
    {
        self.clients.get(id)
    }

    /// Returns whether an identifier is managed.
    #[must_use]
    pub fn contains(&self, id: ClientId) -> (managed: bool)
        ensures
            managed == self@.has(id),
    {
        self.clients.contains(id)
    }

    /// Returns whether a managed client is on the active workspace.
    #[must_use]
    pub fn is_visible(&self, id: ClientId) -> (visible: bool)
        ensures
            visible == (self@.has(id) && self@.shows(self@.client(id))),
    {
        match self.clients.get(id) {
            Some(client) => self.is_visible_client(client),
            None => false,
        }
    }

    /// Returns client identifiers in the order they first became managed.
    #[must_use]
    pub fn management_order(&self) -> (ids: &[ClientId])
        ensures
            ids@ == self@.managed,
    {
        self.management_order.as_slice()
    }

    /// Returns the number of managed clients.
    #[must_use]
    pub fn len(&self) -> (count: usize)
        requires
            self@.wf(),
        ensures
            count == self@.managed.len(),
            count == self@.clients.dom().len(),
    {
        proof {
            let ids = self@.managed;
            let raws = ids.map_values(|id: ClientId| id.0);
            ids.unique_seq_to_set();
            assert(raws.no_duplicates());
            raws.unique_seq_to_set();
            assert(raws.to_set() =~= self@.clients.dom()) by {
                assert forall|raw: u64| raws.to_set().contains(raw) <==> self@.clients.dom()
                    .contains(raw) by {
                    if self@.clients.contains_key(raw) {
                        assert(ids.contains(ClientId(raw)));
                        let i = choose|i: int| 0 <= i < ids.len() && ids[i] == ClientId(raw);
                        assert(raws[i] == raw);
                        assert(raws.contains(raw));
                    }
                    if raws.contains(raw) {
                        let i = choose|i: int| 0 <= i < raws.len() && raws[i] == raw;
                        assert(ids.contains(ids[i]));
                    }
                }
            }
        }
        self.management_order.len()
    }

    /// Returns whether no clients are managed.
    #[must_use]
    pub fn is_empty(&self) -> (empty: bool)
        requires
            self@.wf(),
        ensures
            empty == (self@.managed.len() == 0),
            empty == (forall|raw: u64| !self@.clients.contains_key(raw)),
    {
        proof {
            if self@.managed.len() > 0 {
                assert(self@.managed.contains(self@.managed[0]));
            } else {
                assert forall|raw: u64| !self@.clients.contains_key(raw) by {
                    assert(!self@.managed.contains(ClientId(raw)));
                }
            }
        }
        self.management_order.len() == 0
    }
}

} // verus!
