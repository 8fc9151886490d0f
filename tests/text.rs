use yeti::text::{fix_line, fix_string};

#[test]
fn test_thing() {
  assert_eq!("Though, as a consolation, you'd find a proper road if you%Nwere to travel towards a different peak in the opposite%Ndirection instead.", &fix_string("Though, as a consolation, you'd find a proper road if you were to travel towards a different peak in the opposite direction instead."));
  assert_eq!(
    "The only ways to commute to the city are by train, or via an unpaved mountain road.",
    &fix_string(
      "The only ways to commute to the city are by train, or via an unpaved mountain road."
    )
  );
  assert_eq!(
    "If you made the mistake of going on a hike with your waifu%Nand son after looking at a map and making a mole hill of a%Nmountain, it would probably result in a family tragedy.", 
    &fix_string("If you made the mistake of going on a hike with your waifu and son after looking at a map and making a mole hill of a mountain, it would probably result in a family tragedy.")
  );
}

#[test]
fn test_thing2() {
  assert_eq!(
    "unicode: Though, as a consolation, you'd find a proper road if you%Nwere to travel towards a different peak in the opposite%Ndirection instead. # comment",
    &fix_line(
      "unicode: Though, as a consolation, you'd find a proper road if you were to travel towards a different peak in the opposite direction instead. # comment"
    )
  );

  assert_eq!(
    r#"    unicode: The only ways to commute to the city are by train, or via an unpaved mountain road. #comment"#,
    &fix_line(
      r#"    unicode: "The only ways to commute to the city are by train, or via an unpaved mountain road." #comment"#
    )
  );

  assert_eq!(
    r#"    unicode: not to mention rental shops galore, as well as arcades,%Nbookstores, bars, and establishments to deliver one some%N"healing". # ちなみに向こう側にはデパートもあり、時間さえかければ都心にも出られる路線がそのつま先を置き、レンタルショップはおろかゲーセン・本屋・飲み屋・出張（ヘルス）まである。"#,
    &fix_line(
      r#"    unicode: not to mention rental shops galore, as well as arcades, bookstores, bars, and establishments to deliver one some "healing". # ちなみに向こう側にはデパートもあり、時間さえかければ都心にも出られる路線がそのつま先を置き、レンタルショップはおろかゲーセン・本屋・飲み屋・出張（ヘルス）まである。"#
    )
  );

  assert_eq!(
    r#"    unicode: Tip - The original uses a term called "Delivery health",%Nwhich is a synonym for a call girl agency."#,
    &fix_line(
      r#"    unicode: Tip - The original uses a term called "Delivery health", which is a synonym for a call girl agency."#
    )
  );
}
