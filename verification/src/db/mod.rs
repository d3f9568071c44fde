pub mod contact_us;
pub mod coupon;
pub mod email;
pub mod email_queue;
pub mod event;
pub mod event_ticket;
pub mod guest;
pub mod list;
pub mod manual_rsvp;
pub mod migration;
pub mod notification;
pub mod post;
pub mod promo;
pub mod reservation;
pub mod role;
pub mod rsvp;
pub mod rsvp_session;
pub mod spot;
pub mod ticket;
pub mod user;
pub mod waitlist;
pub mod token;
pub mod event_flyer;
