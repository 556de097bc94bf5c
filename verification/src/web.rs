//! Web management UI: registration, login, SMTP credential management,
//! the virtual mailbox, admin statistics and first-run admin setup.

pub mod accounts;
pub mod admin;
pub mod api;
pub mod api_laws;
pub mod dashboard;
pub mod form_laws;
pub mod forms;
pub mod html;
pub mod laws;
pub mod mail_view;
pub mod page_laws;
pub mod settings_form;
pub mod settings_page;
