//! Which display server there is, and what the native drag protocols keep of
//! windows and of what is offered.

use std::collections::HashMap;
use vstd::prelude::*;
use vstd::std_specs::hash::*;
use crate::table;
use crate::table::Table;
use crate::text;

verus! {

/// The kinds of display server.
#[derive(Clone, Copy, Debug, PartialEq, Eq, Structural)]
pub enum DisplayServer {
    Wayland,
    X11,
    Unknown,
}

/// What the environment says of the display.
pub struct Environment {
    /// A Wayland display is named.
    pub wayland_display: bool,
    pub session_type: Option<String>,
    pub gdk_backend: Option<String>,
    /// An X display is named.
    pub display: bool,
}

/// The display server that the session's type names.
pub open spec fn session_server(e: Environment) -> Option<DisplayServer> {
    match e.session_type {
        Some(t) => if t@ == "wayland"@ {
            Some(DisplayServer::Wayland)
        } else if t@ == "x11"@ {
            Some(DisplayServer::X11)
        } else {
            None
        },
        None => None,
    }
}

/// The display server: Wayland where it names a display, or else what the
/// session's type says, or else X where it names a display.
pub open spec fn display_server(e: Environment) -> DisplayServer {
    if e.wayland_display {
        DisplayServer::Wayland
    } else {
        match session_server(e) {
            Some(s) => s,
            None => if e.display {
                DisplayServer::X11
            } else {
                DisplayServer::Unknown
            },
        }
    }
}

/// The display server that the session's type names.
pub fn server_of_session(e: &Environment) -> (r: Option<DisplayServer>)
    ensures
        r == session_server(*e),
{
    match &e.session_type {
        Some(t) => {
            if text::same(t.as_str(), "wayland") {
                Some(DisplayServer::Wayland)
            } else if text::same(t.as_str(), "x11") {
                Some(DisplayServer::X11)
            } else {
                None
            }
        },
        None => None,
    }
}

/// The display server, by what the environment says.
pub fn get_display_server(e: &Environment) -> (r: DisplayServer)
    ensures
        r == display_server(*e),
{
    if e.wayland_display {
        return DisplayServer::Wayland;
    }
    if let Some(s) = server_of_session(e) {
        return s;
    }
    if e.display {
        DisplayServer::X11
    } else {
        DisplayServer::Unknown
    }
}

/// The display server that was found first, once one was looked for.
pub struct KeptServer {
    pub kept: Option<DisplayServer>,
}

/// The display server that was found first, or else the one that is found now.
pub open spec fn first_found(kept: Option<DisplayServer>, found: DisplayServer) -> DisplayServer {
    match kept {
        Some(s) => s,
        None => found,
    }
}

impl KeptServer {
    /// No display server was looked for.
    pub fn new() -> (r: KeptServer)
        ensures
            r.kept is None,
    {
        KeptServer { kept: None }
    }

    /// The display server that is kept, which is the one found where there was
    /// none.
    pub fn keep(&mut self, found: DisplayServer) -> (r: DisplayServer)
        ensures
            r == first_found(old(self).kept, found),
            final(self).kept == Some(r),
    {
        match self.kept {
            Some(s) => s,
            None => {
                self.kept = Some(found);
                found
            },
        }
    }

    /// The display server, by what the environment said when it was first asked.
    pub fn get_display_server(&mut self, e: &Environment) -> (r: DisplayServer)
        ensures
            r == first_found(old(self).kept, display_server(*e)),
            final(self).kept == Some(r),
    {
        match self.kept {
            Some(s) => s,
            None => self.keep(get_display_server(e)),
        }
    }
}

/// The first answer stays, whatever is found later.
pub proof fn law_first_answer_stays(
    kept: Option<DisplayServer>,
    found: DisplayServer,
    later: DisplayServer,
)
    ensures
        first_found(Some(first_found(kept, found)), later) == first_found(kept, found),
{
}

/// The labels of windows by the numbers that the display server gave them.
pub struct Labels {
    pub by_id: HashMap<u32, String>,
}

impl View for Labels {
    type V = Map<u32, Seq<char>>;

    open spec fn view(&self) -> Map<u32, Seq<char>> {
        self.by_id@.map_values(|s: String| s@)
    }
}

impl Labels {
    /// No labels.
    pub fn new() -> (r: Self)
        ensures
            r@ == Map::<u32, Seq<char>>::empty(),
    {
        broadcast use group_hash_axioms;

        let r = Labels { by_id: HashMap::new() };
        assert(r@ =~= Map::<u32, Seq<char>>::empty());
        r
    }

    /// Notes the label of a window.
    pub fn insert(&mut self, id: u32, label: &str)
        ensures
            final(self)@ == old(self)@.insert(id, label@),
    {
        broadcast use group_hash_axioms;

        let ghost before = self@;
        let _: Option<String> = self.by_id.insert(id, label.to_owned());
        assert(self@ =~= before.insert(id, label@));
    }

    /// The label of a window.
    pub fn get(&self, id: u32) -> (r: Option<String>)
        ensures
            text::opt_view(r) == if self@.contains_key(id) {
                Some(self@[id])
            } else {
                None
            },
    {
        broadcast use group_hash_axioms;

        match self.by_id.get(&id) {
            Some(s) => Some(s.clone()),
            None => None,
        }
    }
}

/// What is kept for the native drag protocols.
pub struct NativeDnd {
    /// Setting up was tried.
    pub initialized: bool,
    pub wayland: Labels,
    /// The windows of X, once there is a connection.
    pub x11: Option<Labels>,
    pub server: KeptServer,
}

/// Whether the protocol of X is to be set up: it is left alone where no X
/// display is named, and where there is a Wayland display.
pub fn x11_is_wanted(e: &Environment) -> (r: bool)
    ensures
        r == (e.display && !e.wayland_display),
{
    e.display && !e.wayland_display
}

/// Whether the protocol of Wayland is to be set up.
pub fn wayland_is_wanted(e: &Environment) -> (r: bool)
    ensures
        r == e.wayland_display,
{
    e.wayland_display
}

/// What setting up a protocol comes to: nothing where it is not wanted, and else
/// whether there is a connection, or why not.
pub open spec fn backend_outcome(wanted: bool, connected: Result<(), Seq<char>>) -> Result<
    bool,
    Seq<char>,
> {
    if !wanted {
        Ok(false)
    } else {
        match connected {
            Ok(_) => Ok(true),
            Err(e) => Err(e),
        }
    }
}

/// What a result holds.
pub open spec fn flag_view(r: Result<bool, String>) -> Result<bool, Seq<char>> {
    match r {
        Ok(b) => Ok(b),
        Err(e) => Err(e@),
    }
}

/// What a result holds.
pub open spec fn unit_view(r: Result<(), String>) -> Result<(), Seq<char>> {
    match r {
        Ok(_) => Ok(()),
        Err(e) => Err(e@),
    }
}

impl NativeDnd {
    /// Nothing is set up.
    pub fn new() -> (r: Self)
        ensures
            !r.initialized,
            r.wayland@ == Map::<u32, Seq<char>>::empty(),
            r.x11 is None,
            r.server.kept is None,
    {
        NativeDnd {
            initialized: false,
            wayland: Labels::new(),
            x11: None,
            server: KeptServer::new(),
        }
    }

    /// Sets up the protocol of the display server, once: what came of it is said
    /// the first time, and success ever after. `connected` is what connecting
    /// came to, where it was to be tried.
    pub fn init(&mut self, e: &Environment, connected: Result<(), String>) -> (r: Result<
        bool,
        String,
    >)
        ensures
            final(self).initialized,
            final(self).wayland@ == old(self).wayland@,
            old(self).initialized ==> r == Ok::<bool, String>(true) && final(self).x11 == old(
                self,
            ).x11 && final(self).server == old(self).server,
            !old(self).initialized ==> final(self).server.kept == Some(
                first_found(old(self).server.kept, display_server(*e)),
            ),
            !old(self).initialized ==> flag_view(r) == match first_found(
                old(self).server.kept,
                display_server(*e),
            ) {
                DisplayServer::Wayland => backend_outcome(
                    e.wayland_display,
                    unit_view(connected),
                ),
                DisplayServer::X11 => backend_outcome(
                    e.display && !e.wayland_display,
                    unit_view(connected),
                ),
                DisplayServer::Unknown => Ok(false),
            },
            !old(self).initialized ==> if first_found(old(self).server.kept, display_server(*e))
                == DisplayServer::X11 && r == Ok::<bool, String>(true) {
                final(self).x11 is Some && final(self).x11->0@ == Map::<u32, Seq<char>>::empty()
            } else {
                final(self).x11 == old(self).x11
            },
    {
        if self.initialized {
            return Ok(true);
        }
        self.initialized = true;
        match self.server.get_display_server(e) {
            DisplayServer::Wayland => {
                if !wayland_is_wanted(e) {
                    return Ok(false);
                }
                match connected {
                    Ok(_) => Ok(true),
                    Err(m) => Err(m),
                }
            },
            DisplayServer::X11 => {
                if !x11_is_wanted(e) {
                    return Ok(false);
                }
                match connected {
                    Ok(_) => {
                        self.x11 = Some(Labels::new());
                        Ok(true)
                    },
                    Err(m) => Err(m),
                }
            },
            DisplayServer::Unknown => Ok(false),
        }
    }

    /// Notes the label of a window for the display server's protocol.
    pub fn register_surface(&mut self, server: DisplayServer, id: u32, label: &str)
        ensures
            final(self).initialized == old(self).initialized,
            final(self).server == old(self).server,
            final(self).wayland@ == if server == DisplayServer::Wayland {
                old(self).wayland@.insert(id, label@)
            } else {
                old(self).wayland@
            },
            final(self).x11 is Some <==> old(self).x11 is Some,
            final(self).x11 is Some ==> final(self).x11->0@ == if server == DisplayServer::X11 {
                old(self).x11->0@.insert(id, label@)
            } else {
                old(self).x11->0@
            },
    {
        match server {
            DisplayServer::Wayland => {
                self.wayland.insert(id, label);
            },
            DisplayServer::X11 => {
                if let Some(labels) = &mut self.x11 {
                    labels.insert(id, label);
                }
            },
            DisplayServer::Unknown => {},
        }
    }
}

/// Notes the label of a window for the display server's protocol.
pub fn register_surface(dnd: &mut NativeDnd, e: &Environment, id: u32, label: &str)
    ensures
        ({
            let server = first_found(old(dnd).server.kept, display_server(*e));
            &&& final(dnd).server.kept == Some(server)
            &&& final(dnd).initialized == old(dnd).initialized
            &&& final(dnd).wayland@ == if server == DisplayServer::Wayland {
                old(dnd).wayland@.insert(id, label@)
            } else {
                old(dnd).wayland@
            }
            &&& final(dnd).x11 is Some <==> old(dnd).x11 is Some
            &&& final(dnd).x11 is Some ==> final(dnd).x11->0@ == if server == DisplayServer::X11 {
                old(dnd).x11->0@.insert(id, label@)
            } else {
                old(dnd).x11->0@
            }
        }),
{
    let server: DisplayServer = dnd.server.get_display_server(e);
    dnd.register_surface(server, id, label);
}

/// The number by which a window of Wayland is known, from where it lies: its low
/// half.
pub fn surface_number(address: u64) -> (r: u32)
    ensures
        r == address % 0x1_0000_0000,
{
    (address % 0x1_0000_0000) as u32
}

// ---------------------------------------------------------------------------
// What Wayland tells
// ---------------------------------------------------------------------------

/// The version in which one of Wayland's interfaces is taken: the one that is
/// offered, as far as it is known; none for an interface that is not needed.
pub fn bind_version(interface: &str, version: u32) -> (r: Option<u32>)
    ensures
        r == if interface@ == "wl_data_device_manager"@ {
            Some(if version < 3 {
                version
            } else {
                3u32
            })
        } else if interface@ == "wl_seat"@ {
            Some(if version < 7 {
                version
            } else {
                7u32
            })
        } else {
            None
        },
{
    if text::same(interface, "wl_data_device_manager") {
        Some(
            if version < 3 {
                version
            } else {
                3
            },
        )
    } else if text::same(interface, "wl_seat") {
        Some(
            if version < 7 {
                version
            } else {
                7
            },
        )
    } else {
        None
    }
}

/// What is kept of what Wayland told.
pub struct WaylandEvents {
    /// Something is offered.
    pub has_offer: bool,
    /// The types in which it is offered.
    pub offer_mime_types: Vec<String>,
    /// Something of ours is offered.
    pub has_source: bool,
    /// What is offered of ours, by its type.
    pub source_data: Table<Vec<u8>>,
}

impl WaylandEvents {
    /// Nothing was told.
    pub fn new() -> (r: Self)
        ensures
            !r.has_offer,
            r.offer_mime_types@.len() == 0,
            !r.has_source,
            r.source_data@.len() == 0,
    {
        WaylandEvents {
            has_offer: false,
            offer_mime_types: Vec::new(),
            has_source: false,
            source_data: Table::new(),
        }
    }

    /// A new offer: the types of the one before are forgotten.
    pub fn data_offer(&mut self)
        ensures
            final(self).has_offer,
            final(self).offer_mime_types@.len() == 0,
            final(self).has_source == old(self).has_source,
            final(self).source_data == old(self).source_data,
    {
        self.has_offer = true;
        self.offer_mime_types = Vec::new();
    }

    /// The offer comes in one more type.
    pub fn offer(&mut self, mime_type: String)
        ensures
            text::views(final(self).offer_mime_types@) == text::views(
                old(self).offer_mime_types@,
            ).push(mime_type@),
            final(self).has_offer == old(self).has_offer,
            final(self).has_source == old(self).has_source,
            final(self).source_data == old(self).source_data,
    {
        let ghost before = self.offer_mime_types@;
        self.offer_mime_types.push(mime_type);
        assert(text::views(self.offer_mime_types@) =~= text::views(before).push(mime_type@));
    }

    /// What is sent of what is ours, in the type.
    pub fn send(&self, mime_type: &str) -> (r: Option<&Vec<u8>>)
        ensures
            match r {
                Some(b) => table::lookup(self.source_data@, mime_type@) == Some(b@),
                None => table::lookup(self.source_data@, mime_type@) is None,
            },
    {
        self.source_data.get(mime_type)
    }

    /// What is ours is offered no longer: the drag is over, or was given up.
    pub fn source_done(&mut self)
        ensures
            !final(self).has_source,
            final(self).source_data@.len() == 0,
            final(self).has_offer == old(self).has_offer,
            final(self).offer_mime_types == old(self).offer_mime_types,
    {
        self.has_source = false;
        self.source_data = Table::new();
    }
}

/// The display server is Wayland wherever that names a display, whatever else is
/// set; else the type of the session decides; else X, where it names a display;
/// and nothing else makes it known.
pub proof fn law_environment_names_the_server(e: Environment)
    ensures
        e.wayland_display ==> display_server(e) == DisplayServer::Wayland,
        !e.wayland_display && e.session_type is Some && e.session_type->0@ == "x11"@
            ==> display_server(e) == DisplayServer::X11,
        !e.wayland_display && e.session_type is Some && e.session_type->0@ == "wayland"@
            ==> display_server(e) == DisplayServer::Wayland,
        !e.wayland_display && e.session_type is None ==> display_server(e) == (if e.display {
            DisplayServer::X11
        } else {
            DisplayServer::Unknown
        }),
{
    reveal_strlit("x11");
    reveal_strlit("wayland");
    assert("x11"@.len() == 3 && "wayland"@.len() == 7);
}

} // verus!
