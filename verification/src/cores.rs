//! Cores, and the services of theirs that the extension uses.

use vstd::prelude::*;
use crate::browse::Browse;
use crate::image::Image;
use crate::moo::Moo;
use crate::settings::Settings;
use crate::status::Status;
use crate::transport::Transport;

verus! {

/// A core that has registered the extension.
#[derive(Debug)]
pub struct Core {
    pub display_name: String,
    pub display_version: String,
    pub id: String,
    pub moo: Moo,
}

impl Clone for Core {
    fn clone(&self) -> (r: Self)
        ensures
            r == *self,
    {
        Core {
            display_name: self.display_name.clone(),
            display_version: self.display_version.clone(),
            id: self.id.clone(),
            moo: self.moo,
        }
    }
}

/// What happened to a core.
#[derive(Debug)]
pub enum CoreEvent {
    Nothing,
    Found(Core),
    Lost(Core),
}

/// A service that the extension uses, or that needs to know of its replies.
#[derive(Debug)]
pub enum Services {
    Status(Status),
    Settings(Settings),
    Transport(Transport),
    Browse(Browse),
    Image(Image),
}

/// The first playback service of a list, from position `from` on.
pub open spec fn first_transport(s: Seq<Services>, from: int) -> int
    decreases s.len() - from,
{
    if from >= s.len() {
        s.len() as int
    } else if s[from] is Transport {
        from
    } else {
        first_transport(s, from + 1)
    }
}

/// The first browse service of a list, from position `from` on.
pub open spec fn first_browse(s: Seq<Services>, from: int) -> int
    decreases s.len() - from,
{
    if from >= s.len() {
        s.len() as int
    } else if s[from] is Browse {
        from
    } else {
        first_browse(s, from + 1)
    }
}

/// The first image service of a list, from position `from` on.
pub open spec fn first_image(s: Seq<Services>, from: int) -> int
    decreases s.len() - from,
{
    if from >= s.len() {
        s.len() as int
    } else if s[from] is Image {
        from
    } else {
        first_image(s, from + 1)
    }
}

/// The first status service of a list, from position `from` on.
pub open spec fn first_status(s: Seq<Services>, from: int) -> int
    decreases s.len() - from,
{
    if from >= s.len() {
        s.len() as int
    } else if s[from] is Status {
        from
    } else {
        first_status(s, from + 1)
    }
}

impl Core {
    /// The playback service, connected with this core.
    pub fn get_transport<'a>(&self, services: &'a mut Option<Vec<Services>>) -> (r: Option<
        &'a mut Transport,
    >)
        ensures
            match *old(services) {
                Some(list) => {
                    let i = first_transport(list@, 0);
                    if i < list@.len() {
                        &&& r matches Some(t)
                        &&& *t == (Transport { moo: Some(self.moo), ..list@[i]->Transport_0 })
                        &&& *final(services) matches Some(left)
                        &&& left@ == list@.update(i, Services::Transport(*final(t)))
                    } else {
                        r is None && *final(services) == *old(services)
                    }
                },
                None => r is None && *final(services) == *old(services),
            },
    {
        match services {
            Some(list) => {
                let mut i: usize = 0;
                while i < list.len() && !is_transport(&list[i])
                    invariant
                        i <= list@.len(),
                        first_transport(list@, 0) == first_transport(list@, i as int),
                    decreases list@.len() - i,
                {
                    i += 1;
                }
                if i < list.len() {
                    match &mut list[i] {
                        Services::Transport(t) => {
                            t.set_moo(self.moo);
                            Some(t)
                        },
                        _ => None,
                    }
                } else {
                    None
                }
            },
            None => None,
        }
    }

    /// The browse service, connected with this core.
    pub fn get_browse<'a>(&self, services: &'a mut Option<Vec<Services>>) -> (r: Option<
        &'a mut Browse,
    >)
        ensures
            match *old(services) {
                Some(list) => {
                    let i = first_browse(list@, 0);
                    if i < list@.len() {
                        &&& r matches Some(t)
                        &&& t.moo == Some(self.moo)
                        &&& t.session_keys == list@[i]->Browse_0.session_keys
                        &&& *final(services) matches Some(left)
                        &&& left@ == list@.update(i, Services::Browse(*final(t)))
                    } else {
                        r is None && *final(services) == *old(services)
                    }
                },
                None => r is None && *final(services) == *old(services),
            },
    {
        match services {
            Some(list) => {
                let mut i: usize = 0;
                while i < list.len() && !is_browse(&list[i])
                    invariant
                        i <= list@.len(),
                        first_browse(list@, 0) == first_browse(list@, i as int),
                    decreases list@.len() - i,
                {
                    i += 1;
                }
                if i < list.len() {
                    match &mut list[i] {
                        Services::Browse(t) => {
                            t.set_moo(self.moo);
                            Some(t)
                        },
                        _ => None,
                    }
                } else {
                    None
                }
            },
            None => None,
        }
    }

    /// The image service, connected with this core.
    pub fn get_image<'a>(&self, services: &'a mut Option<Vec<Services>>) -> (r: Option<
        &'a mut Image,
    >)
        ensures
            match *old(services) {
                Some(list) => {
                    let i = first_image(list@, 0);
                    if i < list@.len() {
                        &&& r matches Some(t)
                        &&& t.moo == Some(self.moo)
                        &&& t.pending == list@[i]->Image_0.pending
                        &&& *final(services) matches Some(left)
                        &&& left@ == list@.update(i, Services::Image(*final(t)))
                    } else {
                        r is None && *final(services) == *old(services)
                    }
                },
                None => r is None && *final(services) == *old(services),
            },
    {
        match services {
            Some(list) => {
                let mut i: usize = 0;
                while i < list.len() && !is_image(&list[i])
                    invariant
                        i <= list@.len(),
                        first_image(list@, 0) == first_image(list@, i as int),
                    decreases list@.len() - i,
                {
                    i += 1;
                }
                if i < list.len() {
                    match &mut list[i] {
                        Services::Image(t) => {
                            t.set_moo(self.moo);
                            Some(t)
                        },
                        _ => None,
                    }
                } else {
                    None
                }
            },
            None => None,
        }
    }

    /// The status service, connected with this core.
    pub fn get_status<'a>(&self, services: &'a mut Option<Vec<Services>>) -> (r: Option<
        &'a mut Status,
    >)
        ensures
            match *old(services) {
                Some(list) => {
                    let i = first_status(list@, 0);
                    if i < list@.len() {
                        &&& r matches Some(t)
                        &&& *t == (Status { moo: Some(self.moo), ..list@[i]->Status_0 })
                        &&& *final(services) matches Some(left)
                        &&& left@ == list@.update(i, Services::Status(*final(t)))
                    } else {
                        r is None && *final(services) == *old(services)
                    }
                },
                None => r is None && *final(services) == *old(services),
            },
    {
        match services {
            Some(list) => {
                let mut i: usize = 0;
                while i < list.len() && !is_status(&list[i])
                    invariant
                        i <= list@.len(),
                        first_status(list@, 0) == first_status(list@, i as int),
                    decreases list@.len() - i,
                {
                    i += 1;
                }
                if i < list.len() {
                    match &mut list[i] {
                        Services::Status(t) => {
                            t.set_moo(self.moo);
                            Some(t)
                        },
                        _ => None,
                    }
                } else {
                    None
                }
            },
            None => None,
        }
    }
}

fn is_transport(s: &Services) -> (r: bool)
    ensures
        r == (*s is Transport),
{
    match s {
        Services::Transport(_) => true,
        _ => false,
    }
}

fn is_browse(s: &Services) -> (r: bool)
    ensures
        r == (*s is Browse),
{
    match s {
        Services::Browse(_) => true,
        _ => false,
    }
}

fn is_image(s: &Services) -> (r: bool)
    ensures
        r == (*s is Image),
{
    match s {
        Services::Image(_) => true,
        _ => false,
    }
}

fn is_status(s: &Services) -> (r: bool)
    ensures
        r == (*s is Status),
{
    match s {
        Services::Status(_) => true,
        _ => false,
    }
}

/// The first playback service of a list is found, and none where there is none.
pub proof fn first_transport_is_found(s: Seq<Services>, from: int)
    requires
        0 <= from <= s.len(),
    ensures
        from <= first_transport(s, from) <= s.len(),
        first_transport(s, from) < s.len() ==> s[first_transport(s, from)] is Transport,
        forall|i: int| from <= i < first_transport(s, from) ==> !(#[trigger] s[i] is Transport),
    decreases s.len() - from,
{
    if from < s.len() && !(s[from] is Transport) {
        first_transport_is_found(s, from + 1);
    }
}

/// The first browse service of a list is found, and none where there is none.
pub proof fn first_browse_is_found(s: Seq<Services>, from: int)
    requires
        0 <= from <= s.len(),
    ensures
        from <= first_browse(s, from) <= s.len(),
        first_browse(s, from) < s.len() ==> s[first_browse(s, from)] is Browse,
        forall|i: int| from <= i < first_browse(s, from) ==> !(#[trigger] s[i] is Browse),
    decreases s.len() - from,
{
    if from < s.len() && !(s[from] is Browse) {
        first_browse_is_found(s, from + 1);
    }
}

/// The first image service of a list is found, and none where there is none.
pub proof fn first_image_is_found(s: Seq<Services>, from: int)
    requires
        0 <= from <= s.len(),
    ensures
        from <= first_image(s, from) <= s.len(),
        first_image(s, from) < s.len() ==> s[first_image(s, from)] is Image,
        forall|i: int| from <= i < first_image(s, from) ==> !(#[trigger] s[i] is Image),
    decreases s.len() - from,
{
    if from < s.len() && !(s[from] is Image) {
        first_image_is_found(s, from + 1);
    }
}

/// The first status of a list is found, and none where there is none.
pub proof fn first_status_is_found(s: Seq<Services>, from: int)
    requires
        0 <= from <= s.len(),
    ensures
        from <= first_status(s, from) <= s.len(),
        first_status(s, from) < s.len() ==> s[first_status(s, from)] is Status,
        forall|i: int| from <= i < first_status(s, from) ==> !(#[trigger] s[i] is Status),
    decreases s.len() - from,
{
    if from < s.len() && !(s[from] is Status) {
        first_status_is_found(s, from + 1);
    }
}

} // verus!
