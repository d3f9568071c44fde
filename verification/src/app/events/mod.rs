pub mod edit;
pub mod rsvp;
