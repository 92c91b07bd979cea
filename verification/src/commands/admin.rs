//! The administrator's PIN and its recovery.

use crate::db::Database;
use crate::db::Records;
use crate::db::default_pin;
use crate::db::settings_key;
use crate::entities::app_settings;
use crate::error::AppError;
use crate::error::ErrorKind;
use crate::error::refused;
use crate::record::Record;
use crate::record::copy_text;
use crate::record::has_key;
use crate::record::index_of;
use crate::record::is_first;
use crate::record::lemma_index_of;
use crate::record::position;
use crate::record::record_of;
use vstd::prelude::*;

verus! {

/// Whether a PIN was right, and whether one is asked for at all.
#[derive(Debug, PartialEq, Eq)]
pub struct PinCheckResult {
    pub valid: bool,
    pub required: bool,
}

/// Whether a PIN is asked for.
#[derive(Debug, PartialEq, Eq)]
pub struct StatusResult {
    pub required: bool,
}

/// Whether the optional text `kept` is the text `given`.
pub open spec fn matches_text(kept: Option<String>, given: Seq<char>) -> bool {
    kept matches Some(text) && text@ == given
}

/// Whether the optional text `kept` is the text `given`.
fn same_text(kept: &Option<String>, given: &String) -> (same: bool)
    ensures
        same == matches_text(*kept, given@),
{
    match kept {
        Some(text) => *text == *given,
        None => false,
    }
}

/// Position of the settings record, if the till has one.
fn settings_position(db: &Database) -> (at: Option<usize>)
    ensures
        at is Some <==> has_key(db@.settings, settings_key()),
        at matches Some(i) ==> is_first(db@.settings, settings_key(), i as int) && i == index_of(
            db@.settings,
            settings_key(),
        ),
{
    let key = String::from_str("app-settings");
    position(&db.settings, &key)
}

/// Checks `pin` against the administrator's PIN. A till without settings
/// asks for none, and every PIN passes.
pub fn verify_pin(db: &Database, pin: String) -> (check: PinCheckResult)
    ensures
        check.required == has_key(db@.settings, settings_key()),
        check.valid == (!check.required || matches_text(
            record_of(db@.settings, settings_key()).admin_pin,
            pin@,
        )),
{
    match settings_position(db) {
        Some(at) => PinCheckResult { valid: same_text(&db.settings[at].admin_pin, &pin), required: true },
        None => PinCheckResult { valid: true, required: false },
    }
}

/// Whether a PIN is asked for: the till has settings and they hold one.
pub fn check_admin_status(db: &Database) -> (status: StatusResult)
    ensures
        status.required == (has_key(db@.settings, settings_key()) && record_of(
            db@.settings,
            settings_key(),
        ).admin_pin is Some),
{
    match settings_position(db) {
        Some(at) => StatusResult { required: db.settings[at].admin_pin.is_some() },
        None => StatusResult { required: false },
    }
}

/// Why an administrative change guarded by the PIN `current_pin` is
/// refused, if it is.
pub open spec fn pin_refusal(pre: Records, current_pin: Seq<char>) -> Option<(ErrorKind, Seq<char>)> {
    if !has_key(pre.settings, settings_key()) {
        Some((ErrorKind::NotFound, "Ayarlar bulunamadı"@))
    } else if !matches_text(record_of(pre.settings, settings_key()).admin_pin, current_pin) {
        Some((ErrorKind::Validation, "Mevcut PIN yanlış"@))
    } else {
        None
    }
}

/// The records with the settings record replaced by `changed`.
pub open spec fn with_settings(pre: Records, changed: app_settings::Model) -> Records {
    Records { settings: pre.settings.update(index_of(pre.settings, settings_key()), changed), ..pre }
}

/// Replacing the settings record by one with the same key keeps the
/// records well-formed.
proof fn lemma_settings_changed(pre: Records, at: int, changed: app_settings::Model)
    requires
        pre.wf(),
        0 <= at < pre.settings.len(),
        changed.id == pre.settings[at].id,
    ensures
        (Records { settings: pre.settings.update(at, changed), ..pre }).wf(),
{
    let post = pre.settings.update(at, changed);
    assert forall|i: int, j: int| 0 <= i < j < post.len() implies (#[trigger] post[i]).key() != (
    #[trigger] post[j]).key() by {
        assert(pre.settings[i].key() != pre.settings[j].key());
    }
}

/// Sets the administrator's PIN to `new_pin`, given the PIN that holds
/// now.
pub fn change_pin(db: &mut Database, current_pin: String, new_pin: String) -> (out: Result<
    (),
    AppError,
>)
    requires
        old(db).wf(),
    ensures
        final(db).wf(),
        match pin_refusal(old(db)@, current_pin@) {
            Some((kind, text)) => final(db)@ == old(db)@ && refused(out, kind, text),
            None => out is Ok && final(db)@ == with_settings(
                old(db)@,
                app_settings::Model {
                    admin_pin: Some(new_pin),
                    ..record_of(old(db)@.settings, settings_key())
                },
            ),
        },
{
    let at = match settings_position(db) {
        Some(at) => at,
        None => { return Err(AppError::not_found("Ayarlar bulunamadı")); },
    };
    if !same_text(&db.settings[at].admin_pin, &current_pin) {
        return Err(AppError::validation("Mevcut PIN yanlış"));
    }
    db.settings[at].admin_pin = Some(new_pin);
    proof {
        let pre = old(db)@;
        let changed = app_settings::Model { admin_pin: Some(new_pin), ..pre.settings[at as int] };
        assert(db@.settings =~= pre.settings.update(at as int, changed));
        lemma_settings_changed(pre, at as int, changed);
    }
    Ok(())
}

/// Sets the recovery question and its answer, given the PIN that holds
/// now.
pub fn set_recovery(db: &mut Database, current_pin: String, question: String, answer: String) -> (out:
    Result<(), AppError>)
    requires
        old(db).wf(),
    ensures
        final(db).wf(),
        match pin_refusal(old(db)@, current_pin@) {
            Some((kind, text)) => final(db)@ == old(db)@ && refused(out, kind, text),
            None => out is Ok && final(db)@ == with_settings(
                old(db)@,
                app_settings::Model {
                    security_question: Some(question),
                    security_answer: Some(answer),
                    ..record_of(old(db)@.settings, settings_key())
                },
            ),
        },
{
    let at = match settings_position(db) {
        Some(at) => at,
        None => { return Err(AppError::not_found("Ayarlar bulunamadı")); },
    };
    if !same_text(&db.settings[at].admin_pin, &current_pin) {
        return Err(AppError::validation("Mevcut PIN yanlış"));
    }
    db.settings[at].security_question = Some(question);
    db.settings[at].security_answer = Some(answer);
    proof {
        let pre = old(db)@;
        let changed = app_settings::Model {
            security_question: Some(question),
            security_answer: Some(answer),
            ..pre.settings[at as int]
        };
        assert(db@.settings =~= pre.settings.update(at as int, changed));
        lemma_settings_changed(pre, at as int, changed);
    }
    Ok(())
}

/// The recovery question, if the till has settings and they hold one.
pub fn get_recovery_question(db: &Database) -> (question: Option<String>)
    ensures
        question == (if has_key(db@.settings, settings_key()) {
            record_of(db@.settings, settings_key()).security_question
        } else {
            None
        }),
{
    match settings_position(db) {
        Some(at) => copy_text(&db.settings[at].security_question),
        None => None,
    }
}

/// Why the PIN cannot be reset with the recovery answer `answer`, if it
/// cannot.
pub open spec fn reset_refusal(pre: Records, answer: Seq<char>) -> Option<(ErrorKind, Seq<char>)> {
    if !has_key(pre.settings, settings_key()) {
        Some((ErrorKind::NotFound, "Ayarlar bulunamadı"@))
    } else if !matches_text(record_of(pre.settings, settings_key()).security_answer, answer) {
        Some((ErrorKind::Validation, "Güvenlik cevabı yanlış"@))
    } else {
        None
    }
}

/// Puts the administrator's PIN back to the default, given the answer to
/// the recovery question.
pub fn reset_pin(db: &mut Database, answer: String) -> (out: Result<(), AppError>)
    requires
        old(db).wf(),
    ensures
        final(db).wf(),
        match reset_refusal(old(db)@, answer@) {
            Some((kind, text)) => final(db)@ == old(db)@ && refused(out, kind, text),
            None => {
                let kept = record_of(old(db)@.settings, settings_key());
                let now = record_of(final(db)@.settings, settings_key());
                &&& out is Ok
                &&& final(db)@ == with_settings(old(db)@, now)
                &&& now.id == kept.id
                &&& matches_text(now.admin_pin, default_pin())
                &&& now.security_answer == kept.security_answer
                &&& now.security_question == kept.security_question
            },
        },
{
    let at = match settings_position(db) {
        Some(at) => at,
        None => { return Err(AppError::not_found("Ayarlar bulunamadı")); },
    };
    if !same_text(&db.settings[at].security_answer, &answer) {
        return Err(AppError::validation("Güvenlik cevabı yanlış"));
    }
    db.settings[at].admin_pin = Some(String::from_str("1234"));
    proof {
        let pre = old(db)@;
        let changed = db@.settings[at as int];
        assert(db@.settings =~= pre.settings.update(at as int, changed));
        lemma_settings_changed(pre, at as int, changed);
        assert forall|j: int| 0 <= j < at implies (#[trigger] db@.settings[j]).key()
            != settings_key() by {
            assert(pre.settings[j].key() != settings_key());
        }
        lemma_index_of(db@.settings, settings_key(), at as int);
    }
    Ok(())
}

} // verus!
