//! The records that the library works on.

use vstd::prelude::*;
use crate::decimal::{decimal_units, parse_decimal};

verus! {

/// One entry of the bank statement. Amounts are in units of
/// [`crate::decimal`]: hundred-millionths of the currency `divisa`.
#[derive(Debug)]
pub struct Transaction {
    pub tipo: String,
    pub producto: String,
    /// When the entry was opened; its first seven characters name the month.
    pub fecha_inicio: String,
    pub fecha_fin: String,
    pub descripcion: String,
    /// What was moved: negative for money that left the account.
    pub importe: i64,
    pub comision: i64,
    pub divisa: String,
    pub state: String,
    pub saldo: i64,
}

impl Clone for Transaction {
    fn clone(&self) -> (r: Self)
        ensures
            r == *self,
    {
        Transaction {
            tipo: self.tipo.clone(),
            producto: self.producto.clone(),
            fecha_inicio: self.fecha_inicio.clone(),
            fecha_fin: self.fecha_fin.clone(),
            descripcion: self.descripcion.clone(),
            importe: self.importe,
            comision: self.comision,
            divisa: self.divisa.clone(),
            state: self.state.clone(),
            saldo: self.saldo,
        }
    }
}

impl Transaction {
    /// Builds an entry from the ten columns of a statement row, reading the
    /// three amounts as decimal numerals. A row with an amount that cannot be
    /// read gives no entry.
    pub fn from_row(
        tipo: String,
        producto: String,
        fecha_inicio: String,
        fecha_fin: String,
        descripcion: String,
        importe: &str,
        comision: &str,
        divisa: String,
        state: String,
        saldo: &str,
    ) -> (r: Option<Transaction>)
        ensures
            r is Some <==> decimal_units(importe@) is Some && decimal_units(comision@) is Some
                && decimal_units(saldo@) is Some,
            r matches Some(t) ==> {
                &&& t.tipo == tipo
                &&& t.producto == producto
                &&& t.fecha_inicio == fecha_inicio
                &&& t.fecha_fin == fecha_fin
                &&& t.descripcion == descripcion
                &&& Some(t.importe as int) == decimal_units(importe@)
                &&& Some(t.comision as int) == decimal_units(comision@)
                &&& t.divisa == divisa
                &&& t.state == state
                &&& Some(t.saldo as int) == decimal_units(saldo@)
            },
    {
        let importe: i64 = match parse_decimal(importe) {
            Some(u) => u,
            None => {
                return None;
            },
        };
        let comision: i64 = match parse_decimal(comision) {
            Some(u) => u,
            None => {
                return None;
            },
        };
        let saldo: i64 = match parse_decimal(saldo) {
            Some(u) => u,
            None => {
                return None;
            },
        };
        Some(
            Transaction {
                tipo,
                producto,
                fecha_inicio,
                fecha_fin,
                descripcion,
                importe,
                comision,
                divisa,
                state,
                saldo,
            },
        )
    }
}

/// What the account holds of one asset: the part that is free and the part
/// that is locked, each as the decimal numeral that the exchange reported.
#[derive(Debug)]
pub struct Balance {
    pub asset: String,
    pub free: String,
    pub locked: String,
}

impl Clone for Balance {
    fn clone(&self) -> (r: Self)
        ensures
            r == *self,
    {
        Balance { asset: self.asset.clone(), free: self.free.clone(), locked: self.locked.clone() }
    }
}

/// The balances of the account at the moment they were fetched.
#[derive(Debug)]
pub struct AccountResponse {
    pub balances: Vec<Balance>,
}

} // verus!
