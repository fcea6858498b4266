//! The port selection screen.

use vstd::prelude::*;

use crate::query::Query;

verus! {

/// What the port selection screen shows.
pub enum PortMenu {
    /// No serial port is available.
    NoPorts,
    /// A menu of the available ports, in the order listed.
    Choices(Vec<String>),
}

/// The port selection screen.
pub struct SelectPortUI;

impl SelectPortUI {
    /// The menu for the ports `ports` that the backend listed.
    pub fn menu(&self, ports: Vec<String>) -> (m: PortMenu)
        ensures
            ports@.len() == 0 ==> m == PortMenu::NoPorts,
            ports@.len() > 0 ==> m == PortMenu::Choices(ports),
    {
        if ports.len() == 0 {
            PortMenu::NoPorts
        } else {
            PortMenu::Choices(ports)
        }
    }

    /// The request that a click on the `index`-th port of the menu sends,
    /// when a port was clicked.
    pub fn update(&self, ports: &Vec<String>, clicked: Option<usize>) -> (q: Option<Query>)
        requires
            clicked matches Some(index) ==> index < ports@.len(),
        ensures
            match clicked {
                Some(index) => q matches Some(Query::OpenPort(name)) && name@
                    == ports@[index as int]@,
                None => q is None,
            },
    {
        match clicked {
            Some(index) => Some(Query::OpenPort(ports[index].clone())),
            None => None,
        }
    }
}

} // verus!
